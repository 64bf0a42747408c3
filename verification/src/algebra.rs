//! The expression tree that fills matrix cells and solver steps.
use vstd::prelude::*;
use vstd::std_specs::cmp::PartialEqSpecImpl;
use vstd::string::*;

verus! {

/// A symbolic expression.
///
/// Negation and division carry optional operands, so that a partially built
/// expression can hold a hole in place of an operand.
#[derive(Debug)]
pub enum Operation {
    /// A numeric literal.
    Value(i64),
    /// A label with the number it stands for.
    Variable(String, i64),
    /// The sum of the terms, in order.
    Sum(Vec<Operation>),
    /// The negation of the operand.
    Negate(Option<Box<Operation>>),
    /// The first operand over the second.
    Divide(Option<Box<Operation>>, Option<Box<Operation>>),
    /// Text that is shown as it is.
    Text(String),
}

/// The mathematical value of an [`Operation`].
pub enum Expr {
    Value(int),
    Variable(Seq<char>, int),
    Sum(Seq<Expr>),
    Negate(Option<Box<Expr>>),
    Divide(Option<Box<Expr>>, Option<Box<Expr>>),
    Text(Seq<char>),
}

/// The value of an operand that may be a hole.
pub open spec fn operand_view(o: Option<Box<Operation>>) -> Option<Box<Expr>>
    decreases o,
{
    match o {
        Some(b) => Some(Box::new(operation_view(*b))),
        None => None,
    }
}

/// The values of a list of terms.
pub open spec fn terms_view(terms: Seq<Operation>) -> Seq<Expr> {
    Seq::new(terms.len(), |i: int| terms[i]@)
}

/// The value of an expression tree.
pub open spec fn operation_view(o: Operation) -> Expr
    decreases o,
{
    match o {
        Operation::Value(v) => Expr::Value(v as int),
        Operation::Variable(label, v) => Expr::Variable(label@, v as int),
        Operation::Sum(terms) => Expr::Sum(
            Seq::new(
                terms@.len(),
                |i: int|
                    if 0 <= i < terms@.len() {
                        operation_view(terms@[i])
                    } else {
                        Expr::Value(0)
                    },
            ),
        ),
        Operation::Negate(a) => Expr::Negate(operand_view(a)),
        Operation::Divide(a, b) => Expr::Divide(operand_view(a), operand_view(b)),
        Operation::Text(s) => Expr::Text(s@),
    }
}

impl View for Operation {
    type V = Expr;

    open spec fn view(&self) -> Expr {
        operation_view(*self)
    }
}

/// The value of a sum is the sum of the values of its terms.
pub proof fn lemma_sum_view(terms: Vec<Operation>)
    ensures
        Operation::Sum(terms)@ == Expr::Sum(terms_view(terms@)),
{
    assert(Operation::Sum(terms)@->Sum_0 =~= terms_view(terms@));
}

fn clone_operand(o: &Option<Box<Operation>>) -> (r: Option<Box<Operation>>)
    ensures
        operand_view(r) == operand_view(*o),
    decreases o,
{
    match o {
        Some(b) => Some(Box::new((&**b).clone())),
        None => None,
    }
}

fn clone_terms(terms: &Vec<Operation>) -> (r: Vec<Operation>)
    ensures
        terms_view(r@) == terms_view(terms@),
    decreases terms,
{
    let mut out: Vec<Operation> = Vec::new();
    let mut i: usize = 0;
    while i < terms.len()
        invariant
            i <= terms.len(),
            out@.len() == i,
            forall|k: int| 0 <= k < i ==> (#[trigger] out@[k])@ == terms@[k]@,
        decreases terms.len() - i,
    {
        out.push(terms[i].clone());
        i += 1;
    }
    assert(terms_view(out@) =~= terms_view(terms@));
    out
}

impl Clone for Operation {
    fn clone(&self) -> (r: Self)
        ensures
            r@ == self@,
        decreases self,
    {
        match self {
            Operation::Value(v) => Operation::Value(*v),
            Operation::Variable(label, v) => Operation::Variable(label.clone(), *v),
            Operation::Sum(terms) => {
                let out = clone_terms(terms);
                proof {
                    lemma_sum_view(out);
                    lemma_sum_view(*terms);
                }
                Operation::Sum(out)
            },
            Operation::Negate(a) => Operation::Negate(clone_operand(a)),
            Operation::Divide(a, b) => Operation::Divide(clone_operand(a), clone_operand(b)),
            Operation::Text(s) => Operation::Text(s.clone()),
        }
    }
}

/// The character of a decimal digit.
pub open spec fn digit_char(d: int) -> char {
    if d == 0 {
        '0'
    } else if d == 1 {
        '1'
    } else if d == 2 {
        '2'
    } else if d == 3 {
        '3'
    } else if d == 4 {
        '4'
    } else if d == 5 {
        '5'
    } else if d == 6 {
        '6'
    } else if d == 7 {
        '7'
    } else if d == 8 {
        '8'
    } else {
        '9'
    }
}

/// The decimal digits of a natural number, without leading zeros.
pub open spec fn nat_text(n: nat) -> Seq<char>
    decreases n,
{
    if n < 10 {
        seq![digit_char(n as int)]
    } else {
        nat_text(n / 10).push(digit_char((n % 10) as int))
    }
}

/// The decimal text of an integer: a minus sign for a negative number, then
/// the digits of its magnitude.
pub open spec fn int_text(v: int) -> Seq<char> {
    if v < 0 {
        "-"@ + nat_text((-v) as nat)
    } else {
        nat_text(v as nat)
    }
}

/// The text that stands for a missing operand.
pub open spec fn hole_text() -> Seq<char> {
    "_"@
}

/// The texts of the first `count` expressions of `terms`, with `separator`
/// between one and the next.
pub open spec fn joined_text(terms: Seq<Expr>, count: nat, separator: Seq<char>) -> Seq<char>
    decreases terms, count,
{
    if count == 0 || count > terms.len() {
        Seq::empty()
    } else if count == 1 {
        expr_text(terms[0])
    } else {
        joined_text(terms, (count - 1) as nat, separator) + separator + expr_text(terms[count - 1])
    }
}

/// The text of an operand, or the hole marker where the operand is missing.
pub open spec fn operand_text(o: Option<Box<Expr>>) -> Seq<char>
    decreases o,
{
    match o {
        Some(a) => expr_text(*a),
        None => hole_text(),
    }
}

/// The canonical text of an expression.
///
/// A literal is its decimal text, a variable its label, and text stands for
/// itself. The terms of a sum are joined by `" + "`, and the empty sum is the
/// empty text. A negation is a minus sign before its operand, except that the
/// negation of a negation is the text of the inner operand. A division is its
/// operands on either side of a slash.
pub open spec fn expr_text(e: Expr) -> Seq<char>
    decreases e,
{
    match e {
        Expr::Value(v) => int_text(v),
        Expr::Variable(label, _) => label,
        Expr::Sum(terms) => joined_text(terms, terms.len(), " + "@),
        Expr::Negate(Some(a)) => match *a {
            Expr::Negate(Some(inner)) => expr_text(*inner),
            _ => "-"@ + expr_text(*a),
        },
        Expr::Negate(None) => "-"@ + hole_text(),
        Expr::Divide(a, b) => operand_text(a) + "/"@ + operand_text(b),
        Expr::Text(s) => s,
    }
}

fn digit_str(d: u64) -> (s: &'static str)
    requires
        d < 10,
    ensures
        s@ == seq![digit_char(d as int)],
{
    proof {
        reveal_strlit("0");
        reveal_strlit("1");
        reveal_strlit("2");
        reveal_strlit("3");
        reveal_strlit("4");
        reveal_strlit("5");
        reveal_strlit("6");
        reveal_strlit("7");
        reveal_strlit("8");
        reveal_strlit("9");
    }
    let s = if d == 0 {
        "0"
    } else if d == 1 {
        "1"
    } else if d == 2 {
        "2"
    } else if d == 3 {
        "3"
    } else if d == 4 {
        "4"
    } else if d == 5 {
        "5"
    } else if d == 6 {
        "6"
    } else if d == 7 {
        "7"
    } else if d == 8 {
        "8"
    } else {
        "9"
    };
    assert(s@ =~= seq![digit_char(d as int)]);
    s
}

/// Appends the decimal digits of `n` to `out`.
pub fn push_nat(out: &mut String, n: u64)
    ensures
        final(out)@ == old(out)@ + nat_text(n as nat),
    decreases n,
{
    if n >= 10 {
        push_nat(out, n / 10);
    }
    out.append(digit_str(n % 10));
    assert(out@ =~= old(out)@ + nat_text(n as nat));
}

/// Appends the decimal text of `v` to `out`.
pub fn push_int(out: &mut String, v: i64)
    ensures
        final(out)@ == old(out)@ + int_text(v as int),
{
    if v < 0 {
        out.append("-");
        let magnitude: u64 = if v == i64::MIN {
            0x8000_0000_0000_0000u64
        } else {
            (-v) as u64
        };
        push_nat(out, magnitude);
        assert(out@ =~= old(out)@ + int_text(v as int));
    } else {
        push_nat(out, v as u64);
    }
}

fn push_operand(o: &Option<Box<Operation>>, out: &mut String)
    ensures
        final(out)@ == old(out)@ + operand_text(operand_view(*o)),
    decreases o,
{
    match o {
        Some(b) => {
            (&**b).push_text(out);
        },
        None => {
            out.append("_");
        },
    }
}

fn push_terms(terms: &Vec<Operation>, out: &mut String)
    ensures
        final(out)@ == old(out)@ + joined_text(terms_view(terms@), terms@.len(), " + "@),
    decreases terms,
{
    let ghost shown = terms_view(terms@);
    let mut i: usize = 0;
    while i < terms.len()
        invariant
            i <= terms.len(),
            shown == terms_view(terms@),
            out@ == old(out)@ + joined_text(shown, i as nat, " + "@),
        decreases terms.len() - i,
    {
        if i > 0 {
            out.append(" + ");
        }
        let ghost middle = out@;
        terms[i].push_text(out);
        assert(shown[i as int] == terms@[i as int]@);
        assert(out@ =~= middle + expr_text(shown[i as int]));
        assert(out@ =~= old(out)@ + joined_text(shown, (i + 1) as nat, " + "@));
        i += 1;
    }
}

impl Operation {
    /// Appends the canonical text of the expression to `out`.
    pub fn push_text(&self, out: &mut String)
        ensures
            final(out)@ == old(out)@ + expr_text(self@),
        decreases self,
    {
        proof {
            reveal_with_fuel(operation_view, 3);
            reveal_with_fuel(operand_view, 3);
            reveal_with_fuel(expr_text, 2);
        }
        match self {
            Operation::Value(v) => {
                push_int(out, *v);
            },
            Operation::Variable(label, _) => {
                out.append(label.as_str());
            },
            Operation::Sum(terms) => {
                proof {
                    lemma_sum_view(*terms);
                }
                push_terms(terms, out);
            },
            Operation::Negate(a) => {
                match a {
                    Some(b) => {
                        match &**b {
                            Operation::Negate(Some(inner)) => {
                                (&**inner).push_text(out);
                            },
                            _ => {
                                out.append("-");
                                (&**b).push_text(out);
                                assert(out@ =~= old(out)@ + ("-"@ + expr_text(b@)));
                            },
                        }
                    },
                    None => {
                        out.append("-");
                        out.append("_");
                        assert(out@ =~= old(out)@ + ("-"@ + hole_text()));
                    },
                }
            },
            Operation::Divide(a, b) => {
                push_operand(a, out);
                out.append("/");
                push_operand(b, out);
                assert(out@ =~= old(out)@ + (operand_text(operand_view(*a)) + "/"@ + operand_text(
                    operand_view(*b),
                )));
            },
            Operation::Text(s) => {
                out.append(s.as_str());
            },
        }
    }

    /// The canonical text of the expression.
    pub fn equation_repr(&self) -> (s: String)
        ensures
            s@ == expr_text(self@),
    {
        let mut out = String::new();
        self.push_text(&mut out);
        assert(out@ =~= expr_text(self@));
        out
    }
}

impl PartialEq for Operation {
    /// Two expressions are equal where their canonical texts are, however
    /// they were put together.
    fn eq(&self, other: &Self) -> (r: bool) {
        self.equation_repr() == other.equation_repr()
    }
}

impl PartialEqSpecImpl for Operation {
    open spec fn obeys_eq_spec() -> bool {
        true
    }

    open spec fn eq_spec(&self, other: &Self) -> bool {
        expr_text(self@) == expr_text(other@)
    }
}

/// The canonical text depends on the value of an expression alone: two
/// expressions of the same value have the same text, however often and
/// wherever it is asked for.
pub proof fn lemma_text_is_determined(a: Operation, b: Operation)
    requires
        a@ == b@,
    ensures
        expr_text(a@) == expr_text(b@),
{
}

/// The literal zero has the text `0`.
pub proof fn lemma_zero_text()
    ensures
        expr_text(Expr::Value(0)) == "0"@,
{
    reveal_strlit("0");
    assert(nat_text(0) =~= "0"@);
}

} // verus!

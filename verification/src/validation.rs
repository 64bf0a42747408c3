//! Verdicts on the structure of a circuit, and the checks that collect them.
use crate::util::PrettyPrint;
use vstd::prelude::*;
use vstd::std_specs::cmp::PartialEqSpec;
use vstd::string::*;

verus! {

/// The verdicts of a check that found nothing wrong.
#[derive(Debug, Clone, Copy, PartialEq, Eq, Structural)]
pub enum Status {
    /// The value is valid as it stands.
    Valid,
    /// The value is valid after it was simplified.
    Simplified,
}

/// What a check found wrong.
#[derive(Debug)]
pub enum StatusError {
    /// Something is wrong and nothing more is known.
    Unknown,
    /// One issue, described in words.
    KnownIssue(String),
    /// Several issues, in the order in which they were found.
    MultipleIssues(Vec<StatusError>),
}

/// The mathematical value of a [`StatusError`].
pub enum Issue {
    Unknown,
    KnownIssue(Seq<char>),
    MultipleIssues(Seq<Issue>),
}

/// What a check returns.
pub type ValidationResult = Result<Status, StatusError>;

/// The values of a list of errors.
pub open spec fn issues_view(errors: Seq<StatusError>) -> Seq<Issue> {
    Seq::new(errors.len(), |i: int| errors[i]@)
}

/// The value of an error.
pub open spec fn status_error_view(e: StatusError) -> Issue
    decreases e,
{
    match e {
        StatusError::Unknown => Issue::Unknown,
        StatusError::KnownIssue(s) => Issue::KnownIssue(s@),
        StatusError::MultipleIssues(list) => Issue::MultipleIssues(
            Seq::new(
                list@.len(),
                |i: int|
                    if 0 <= i < list@.len() {
                        status_error_view(list@[i])
                    } else {
                        Issue::Unknown
                    },
            ),
        ),
    }
}

impl View for StatusError {
    type V = Issue;

    open spec fn view(&self) -> Issue {
        status_error_view(*self)
    }
}

/// The value of what a check returns.
pub open spec fn result_view(r: ValidationResult) -> Result<Status, Issue> {
    match r {
        Ok(s) => Ok(s),
        Err(e) => Err(e@),
    }
}

/// The value of an aggregate is the aggregate of the values of its parts.
pub proof fn lemma_multiple_issues_view(list: Vec<StatusError>)
    ensures
        StatusError::MultipleIssues(list)@ == Issue::MultipleIssues(issues_view(list@)),
{
    assert(StatusError::MultipleIssues(list)@->MultipleIssues_0 =~= issues_view(list@));
}

fn clone_errors(list: &Vec<StatusError>) -> (r: Vec<StatusError>)
    ensures
        issues_view(r@) == issues_view(list@),
    decreases list,
{
    let mut out: Vec<StatusError> = Vec::new();
    let mut i: usize = 0;
    while i < list.len()
        invariant
            i <= list.len(),
            out@.len() == i,
            forall|k: int| 0 <= k < i ==> (#[trigger] out@[k])@ == list@[k]@,
        decreases list.len() - i,
    {
        out.push(list[i].clone());
        i += 1;
    }
    assert(issues_view(out@) =~= issues_view(list@));
    out
}

impl Clone for StatusError {
    fn clone(&self) -> (r: Self)
        ensures
            r@ == self@,
        decreases self,
    {
        match self {
            StatusError::Unknown => StatusError::Unknown,
            StatusError::KnownIssue(s) => StatusError::KnownIssue(s.clone()),
            StatusError::MultipleIssues(list) => {
                let out = clone_errors(list);
                proof {
                    lemma_multiple_issues_view(out);
                    lemma_multiple_issues_view(*list);
                }
                StatusError::MultipleIssues(out)
            },
        }
    }
}

impl Status {
    /// The words that name the verdict.
    pub open spec fn text(self) -> Seq<char> {
        match self {
            Status::Valid => "Valid"@,
            Status::Simplified => "Simplified"@,
        }
    }

    /// The words that name the verdict.
    pub fn to_text(&self) -> (s: String)
        ensures
            s@ == self.text(),
    {
        match self {
            Status::Valid => String::from_str("Valid"),
            Status::Simplified => String::from_str("Simplified"),
        }
    }
}

/// The text that the `Debug` formatting of `str` gives for a string: the
/// string between double quotes, with the characters escaped that Rust
/// escapes there.
pub uninterp spec fn debug_quoted(s: Seq<char>) -> Seq<char>;

/// Formats the string with `{:?}`, that is, with `<str as Debug>::fmt`. What
/// comes back depends on the characters of the string alone.
#[verifier::external_body]
fn quoted(s: &str) -> (r: String)
    ensures
        r@ == debug_quoted(s@),
{
    format!("{:?}", s)
}

/// The developer's notation of the first `count` issues, separated by commas.
pub open spec fn debug_joined(list: Seq<Issue>, count: nat) -> Seq<char>
    decreases list, count,
{
    if count == 0 || count > list.len() {
        Seq::empty()
    } else if count == 1 {
        debug_text(list[0])
    } else {
        debug_joined(list, (count - 1) as nat) + ", "@ + debug_text(list[count - 1])
    }
}

/// The developer's notation of a list of issues: its items between square
/// brackets.
pub open spec fn debug_list_text(list: Seq<Issue>) -> Seq<char>
    decreases list, list.len() + 1,
{
    "["@ + debug_joined(list, list.len()) + "]"@
}

/// The developer's notation of an issue: the name of its variant, followed in
/// round brackets by the quoted description or by the list of its parts.
pub open spec fn debug_text(e: Issue) -> Seq<char>
    decreases e,
{
    match e {
        Issue::Unknown => "Unknown"@,
        Issue::KnownIssue(s) => "KnownIssue("@ + debug_quoted(s) + ")"@,
        Issue::MultipleIssues(list) => "MultipleIssues("@ + debug_list_text(list) + ")"@,
    }
}

/// The message of an issue.
pub open spec fn issue_text(e: Issue) -> Seq<char> {
    match e {
        Issue::Unknown => "Unknown Issue"@,
        Issue::KnownIssue(s) => "Known Issue: "@ + s,
        Issue::MultipleIssues(list) => "Multiple Issues: "@ + debug_list_text(list),
    }
}

fn push_debug_list(list: &Vec<StatusError>, out: &mut String)
    ensures
        final(out)@ == old(out)@ + debug_list_text(issues_view(list@)),
    decreases list,
{
    let ghost shown = issues_view(list@);
    out.append("[");
    let mut i: usize = 0;
    while i < list.len()
        invariant
            i <= list.len(),
            shown == issues_view(list@),
            out@ == old(out)@ + "["@ + debug_joined(shown, i as nat),
        decreases list.len() - i,
    {
        if i > 0 {
            out.append(", ");
        }
        list[i].push_debug(out);
        assert(shown[i as int] == list@[i as int]@);
        assert(out@ =~= old(out)@ + "["@ + debug_joined(shown, (i + 1) as nat));
        i += 1;
    }
    out.append("]");
    assert(out@ =~= old(out)@ + debug_list_text(shown));
}

impl StatusError {
    /// Appends the developer's notation of the error to `out`.
    pub fn push_debug(&self, out: &mut String)
        ensures
            final(out)@ == old(out)@ + debug_text(self@),
        decreases self,
    {
        match self {
            StatusError::Unknown => {
                out.append("Unknown");
            },
            StatusError::KnownIssue(s) => {
                out.append("KnownIssue(");
                let q = quoted(s.as_str());
                out.append(q.as_str());
                out.append(")");
                assert(out@ =~= old(out)@ + ("KnownIssue("@ + debug_quoted(s@) + ")"@));
            },
            StatusError::MultipleIssues(list) => {
                proof {
                    lemma_multiple_issues_view(*list);
                }
                out.append("MultipleIssues(");
                push_debug_list(list, out);
                out.append(")");
                assert(out@ =~= old(out)@ + ("MultipleIssues("@ + debug_list_text(
                    issues_view(list@),
                ) + ")"@));
            },
        }
    }

    /// The message of the error.
    pub fn to_text(&self) -> (s: String)
        ensures
            s@ == issue_text(self@),
    {
        match self {
            StatusError::Unknown => String::from_str("Unknown Issue"),
            StatusError::KnownIssue(s) => {
                let mut out = String::from_str("Known Issue: ");
                out.append(s.as_str());
                out
            },
            StatusError::MultipleIssues(list) => {
                proof {
                    lemma_multiple_issues_view(*list);
                }
                let mut out = String::from_str("Multiple Issues: ");
                push_debug_list(list, &mut out);
                out
            },
        }
    }
}

/// Values that can be checked.
pub trait Validation {
    /// What a check of the value finds.
    spec fn verdict(&self) -> Result<Status, Issue>;

    /// Checks the value.
    fn validate(&self) -> (r: ValidationResult)
        ensures
            result_view(r) == self.verdict(),
    ;
}

/// The issues among the verdicts of the first `count` items, in order.
pub open spec fn failures<T: Validation>(list: Seq<T>, count: nat) -> Seq<Issue>
    decreases count,
{
    if count == 0 || count > list.len() {
        Seq::empty()
    } else {
        let rest = failures(list, (count - 1) as nat);
        match list[count - 1].verdict() {
            Err(e) => rest.push(e),
            Ok(_) => rest,
        }
    }
}

/// Checks every item of the list and returns what the failed checks found, in
/// the order of the list.
pub fn get_all_internal_status_errors<T: Validation>(list: &Vec<T>) -> (errors: Vec<StatusError>)
    ensures
        issues_view(errors@) == failures(list@, list@.len()),
{
    let mut errors: Vec<StatusError> = Vec::new();
    let mut i: usize = 0;
    assert(issues_view(errors@) =~= failures(list@, 0));
    while i < list.len()
        invariant
            i <= list.len(),
            issues_view(errors@) == failures(list@, i as nat),
        decreases list.len() - i,
    {
        let ghost before = issues_view(errors@);
        match list[i].validate() {
            Err(e) => {
                errors.push(e);
                assert(issues_view(errors@) =~= before.push(e@));
            },
            Ok(_) => {},
        }
        i += 1;
    }
    errors
}

/// Whether an earlier item of the list equals the item at `index`.
pub open spec fn seen_before<T: PartialEq>(list: Seq<T>, index: int) -> bool {
    exists|j: int| 0 <= j < index && (#[trigger] list[j]).eq_spec(&list[index])
}

/// The issue that reports `item` as a duplicate.
pub open spec fn duplicate_issue<T: PrettyPrint>(item: T) -> Issue {
    Issue::KnownIssue("Duplicate: "@ + item.pretty_text())
}

/// One issue for every item among the first `count` that equals an earlier
/// item, in the order of the list.
pub open spec fn duplicate_issues<T: PartialEq + PrettyPrint>(list: Seq<T>, count: nat) -> Seq<Issue>
    decreases count,
{
    if count == 0 || count > list.len() {
        Seq::empty()
    } else {
        let rest = duplicate_issues(list, (count - 1) as nat);
        if seen_before(list, count - 1) {
            rest.push(duplicate_issue(list[count - 1]))
        } else {
            rest
        }
    }
}

/// Reports every item of the list that equals an earlier item.
///
/// The result is empty where the list holds no duplicate. What it holds is
/// stated for a type whose `==` is the relation that its `eq_spec` gives.
pub fn check_duplicates<T: Validation + PartialEq + PrettyPrint>(list: &Vec<T>) -> (errors: Vec<
    StatusError,
>)
    ensures
        errors@.len() <= list@.len(),
        T::obeys_eq_spec() ==> issues_view(errors@) == duplicate_issues(list@, list@.len()),
{
    let mut errors: Vec<StatusError> = Vec::new();
    let mut i: usize = 0;
    assert(issues_view(errors@) =~= duplicate_issues(list@, 0));
    while i < list.len()
        invariant
            i <= list.len(),
            errors@.len() <= i,
            T::obeys_eq_spec() ==> issues_view(errors@) == duplicate_issues(list@, i as nat),
        decreases list.len() - i,
    {
        let mut found = false;
        let mut j: usize = 0;
        while j < i
            invariant
                j <= i,
                i < list.len(),
                T::obeys_eq_spec() ==> (found <==> exists|k: int|
                    0 <= k < j && (#[trigger] list@[k]).eq_spec(&list@[i as int])),
            decreases i - j,
        {
            if list[j] == list[i] {
                found = true;
            }
            j += 1;
        }
        if found {
            let ghost before = issues_view(errors@);
            let mut message = String::from_str("Duplicate: ");
            let label = list[i].pretty_string();
            message.append(label.as_str());
            let error = StatusError::KnownIssue(message);
            errors.push(error);
            assert(issues_view(errors@) =~= before.push(error@));
        }
        i += 1;
    }
    errors
}

} // verus!

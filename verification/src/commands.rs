//! What the commands of the tool decide before anything is asked of git:
//! which branch to create, where to go, what to push, what to delete.

use vstd::prelude::*;
use vstd::string::StringExecFns;
use crate::branch::{decode, full_name, parse_branch, start_name, BranchId, ParsedBranch};
use crate::config::SavedConfig;
use crate::decimal::{digits_of, first_index, lemma_first_index, write_decimal};
use crate::gateway::text_of;
use crate::pr::{prs_of, Pr, PrView};
use crate::stack::{texts, CheckoutDir};
use crate::text::{same_chars, slice_chars, to_chars, to_text, trim_end, trimmed_end};

verus! {

/// The branch that a new piece of work gets. It is in the managed namespace:
/// a branch without prefix gets the configured one. It keeps the base of the
/// current branch unless a feature is named. It stands at the position that
/// is named, or else one whole step after the current branch, or at 1 if the
/// current branch has no position.
pub open spec fn next_branch(
    current: BranchId,
    prefix: Seq<char>,
    feature: Option<Seq<char>>,
    part: Option<u32>,
) -> BranchId {
    BranchId {
        prefix: match current.prefix {
            Some(p) => Some(p),
            None => Some(prefix),
        },
        base: match feature {
            Some(f) => f,
            None => current.base,
        },
        position: match part {
            Some(p) => Some(p),
            None => match current.position {
                Some(p) => Some((p + 100) as u32),
                None => Some(100u32),
            },
        },
    }
}

/// The branch that a new piece of work gets: see `next_branch`.
pub fn new_branch(
    current: ParsedBranch,
    cfg: &SavedConfig,
    feature: Option<String>,
    part: Option<u32>,
) -> (branch: ParsedBranch)
    requires
        part is None && current@.position is Some ==> current@.position->0 <= u32::MAX - 100,
    ensures
        branch@ == next_branch(current@, cfg.branch_prefix@, text_of(feature), part),
{
    let position = match part {
        Some(p) => p,
        None => match current.partx100 {
            Some(p) => p + 100,
            None => 100,
        },
    };
    ParsedBranch {
        prefix: match current.prefix {
            Some(p) => Some(p),
            None => Some(cfg.branch_prefix.clone()),
        },
        base: match feature {
            Some(f) => f,
            None => current.base,
        },
        partx100: Some(position),
    }
}

/// Where a checkout goes: to the named position if one is named, else to
/// the first of next, previous and start that is asked for.
pub fn direction(part: Option<u32>, next: bool, prev: bool, start: bool) -> (dir: CheckoutDir)
    ensures
        dir == match part {
            Some(p) => CheckoutDir::Part(p),
            None => if next {
                CheckoutDir::Next
            } else if prev {
                CheckoutDir::Prev
            } else if start {
                CheckoutDir::Start
            } else {
                CheckoutDir::Unknown
            },
        },
{
    match part {
        Some(p) => CheckoutDir::Part(p),
        None => {
            if next {
                CheckoutDir::Next
            } else if prev {
                CheckoutDir::Prev
            } else if start {
                CheckoutDir::Start
            } else {
                CheckoutDir::Unknown
            }
        },
    }
}

/// Whether the user answered yes: the line, without the blanks at its end,
/// is `y`.
pub fn confirm(line: &str) -> (yes: bool)
    ensures
        yes == (trim_end(line@, false) == seq!['y']),
{
    let answer = trimmed_end(&to_chars(line), false);
    if answer.len() == 1 && answer[0] == 'y' {
        assert(answer@ =~= seq!['y']);
        true
    } else {
        false
    }
}

/// The branches that a push sends: the current one, and its start marker
/// if that is asked for.
pub fn branches_to_push(current: &str, with_start: bool, cfg: &SavedConfig) -> (names: Vec<String>)
    ensures
        texts(names@) == if with_start {
            seq![
                current@,
                start_name(decode(current@, cfg.branch_prefix@, cfg.branch_split@), cfg.branch_split@),
            ]
        } else {
            seq![current@]
        },
{
    let mut names: Vec<String> = Vec::new();
    names.push(current.to_owned());
    if with_start {
        names.push(parse_branch(current, cfg).start(cfg));
    }
    assert(texts(names@) =~= if with_start {
        seq![
            current@,
            start_name(decode(current@, cfg.branch_prefix@, cfg.branch_split@), cfg.branch_split@),
        ]
    } else {
        seq![current@]
    });
    names
}

/// The branch under a new base name.
pub fn renamed(current: &ParsedBranch, new_name: String) -> (branch: ParsedBranch)
    ensures
        branch@ == (BranchId { base: new_name@, ..current@ }),
{
    ParsedBranch {
        prefix: match &current.prefix {
            Some(p) => Some(p.clone()),
            None => None,
        },
        base: new_name,
        partx100: current.partx100,
    }
}

/// The branch under a new prefix.
pub fn migrated(branch: &ParsedBranch, prefix: &str) -> (moved: ParsedBranch)
    ensures
        moved@ == (BranchId { prefix: Some(prefix@), ..branch@ }),
{
    ParsedBranch {
        prefix: Some(prefix.to_owned()),
        base: branch.base.clone(),
        partx100: branch.partx100,
    }
}

/// The closed ones among `prs`, in their order.
pub open spec fn closed_of(prs: Seq<PrView>) -> Seq<PrView>
    decreases prs.len(),
{
    if prs.len() == 0 {
        prs
    } else if prs.last().closed {
        closed_of(prs.drop_last()).push(prs.last())
    } else {
        closed_of(prs.drop_last())
    }
}

/// The pull requests whose branches a cleanup deletes: the closed ones.
pub fn cleanup(prs: &Vec<Pr>) -> (closed: Vec<Pr>)
    ensures
        prs_of(closed@) == closed_of(prs_of(prs@)),
{
    let mut closed: Vec<Pr> = Vec::new();
    let mut i: usize = 0;
    proof {
        assert(prs_of(prs@).take(0) =~= Seq::<PrView>::empty());
        assert(prs_of(closed@) =~= Seq::<PrView>::empty());
    }
    while i < prs.len()
        invariant
            i <= prs.len(),
            prs_of(closed@) == closed_of(prs_of(prs@).take(i as int)),
        decreases prs.len() - i,
    {
        proof {
            assert(prs_of(prs@).take(i + 1).drop_last() =~= prs_of(prs@).take(i as int));
            assert(prs_of(prs@).take(i + 1).last() == prs@[i as int]@);
        }
        if prs[i].closed {
            let ghost before = prs_of(closed@);
            closed.push(prs[i].clone());
            assert(prs_of(closed@) =~= before.push(prs@[i as int]@));
        }
        i += 1;
    }
    assert(prs_of(prs@).take(prs.len() as int) =~= prs_of(prs@));
    closed
}

/// The two names under which the branches of a closed pull request are
/// deleted: the branch and its start marker, as the name of the pull
/// request's branch reads.
pub fn cleanup_closed_pr(pr: &Pr, cfg: &SavedConfig) -> (names: (String, String))
    ensures
        names.0@ == full_name(
            decode(pr@.branch, cfg.branch_prefix@, cfg.branch_split@),
            cfg.branch_split@,
        ),
        names.1@ == start_name(
            decode(pr@.branch, cfg.branch_prefix@, cfg.branch_split@),
            cfg.branch_split@,
        ),
{
    let br = parse_branch(pr.branch.as_str(), cfg);
    (br.full(cfg), br.start(cfg))
}

/// What the clock shows when `left` minutes are left.
pub open spec fn minutes_left(left: u32) -> Seq<char> {
    digits_of(left as nat) + " minutes left"@
}

/// What the clock of a pomodoro shows, minute by minute: first the whole
/// duration, last one minute.
pub fn run_pomodoro(duration_min: u32) -> (shown: Vec<String>)
    ensures
        shown.len() == duration_min,
        forall|i: int|
            0 <= i < shown.len() ==> (#[trigger] shown[i])@ == minutes_left(
                (duration_min - i) as u32,
            ),
{
    let mut shown: Vec<String> = Vec::new();
    let mut i: u32 = 0;
    while i < duration_min
        invariant
            i <= duration_min,
            shown.len() == i,
            forall|k: int|
                0 <= k < i ==> (#[trigger] shown[k])@ == minutes_left((duration_min - k) as u32),
        decreases duration_min - i,
    {
        let mut line = to_text(&write_decimal((duration_min - i) as u64));
        line.append(" minutes left");
        shown.push(line);
        i += 1;
    }
    shown
}

/// How a review or a check stands.
#[derive(Debug, PartialEq, Eq)]
pub enum Mark {
    /// Approved, or passed.
    Good,
    /// Still open.
    Waiting,
    /// Changes asked for, or failed.
    Bad,
    /// Expected, not yet reported.
    Expected,
    /// Something else, as it was reported.
    Other(String),
}

/// The mathematical value of a `Mark`.
pub enum MarkView {
    Good,
    Waiting,
    Bad,
    Expected,
    Other(Seq<char>),
}

impl View for Mark {
    type V = MarkView;

    open spec fn view(&self) -> MarkView {
        match *self {
            Mark::Good => MarkView::Good,
            Mark::Waiting => MarkView::Waiting,
            Mark::Bad => MarkView::Bad,
            Mark::Expected => MarkView::Expected,
            Mark::Other(t) => MarkView::Other(t@),
        }
    }
}

/// How a review stands, from the decision that is reported; no decision
/// means that the review is still open.
pub open spec fn review_mark_of(decision: Option<Seq<char>>) -> MarkView {
    match decision {
        None => MarkView::Waiting,
        Some(d) => if d == "APPROVED"@ {
            MarkView::Good
        } else if d == "REVIEW_REQUIRED"@ {
            MarkView::Waiting
        } else if d == "CHANGES_REQUESTED"@ {
            MarkView::Bad
        } else {
            MarkView::Other(d)
        },
    }
}

/// How the checks stand, from the state that is reported.
pub open spec fn test_mark_of(status: Seq<char>) -> MarkView {
    if status == "SUCCESS"@ {
        MarkView::Good
    } else if status == "PENDING"@ {
        MarkView::Waiting
    } else if status == "FAILURE"@ || status == "ERROR"@ {
        MarkView::Bad
    } else if status == "EXPECTED"@ {
        MarkView::Expected
    } else {
        MarkView::Other(status)
    }
}

fn is_text(s: &String, word: &str) -> (same: bool)
    ensures
        same == (s@ == word@),
{
    same_chars(&to_chars(s.as_str()), &to_chars(word))
}

/// How the review of a pull request stands.
pub fn review_mark(decision: &Option<String>) -> (mark: Mark)
    ensures
        mark@ == review_mark_of(text_of(*decision)),
{
    match decision {
        None => Mark::Waiting,
        Some(d) => {
            if is_text(d, "APPROVED") {
                Mark::Good
            } else if is_text(d, "REVIEW_REQUIRED") {
                Mark::Waiting
            } else if is_text(d, "CHANGES_REQUESTED") {
                Mark::Bad
            } else {
                Mark::Other(d.clone())
            }
        },
    }
}

/// How the checks of a pull request stand.
pub fn test_mark(status: &String) -> (mark: Mark)
    ensures
        mark@ == test_mark_of(status@),
{
    if is_text(status, "SUCCESS") {
        Mark::Good
    } else if is_text(status, "PENDING") {
        Mark::Waiting
    } else if is_text(status, "FAILURE") || is_text(status, "ERROR") {
        Mark::Bad
    } else if is_text(status, "EXPECTED") {
        Mark::Expected
    } else {
        Mark::Other(status.clone())
    }
}

/// The title and the body of a pull request, from the text that was
/// written for it: the first line, and what follows it. Nothing if the text
/// has one line only.
pub fn get_title_and_body(text: &str) -> (parts: Option<(String, String)>)
    ensures
        match parts {
            Some((title, body)) => first_index(text@, '\n') < text@.len() && title@
                == text@.take(first_index(text@, '\n')) && body@ == text@.skip(
                first_index(text@, '\n') + 1,
            ),
            None => first_index(text@, '\n') == text@.len(),
        },
{
    let chars = to_chars(text);
    let mut i: usize = 0;
    while i < chars.len() && chars[i] != '\n'
        invariant
            i <= chars.len(),
            forall|j: int| 0 <= j < i ==> chars@[j] != '\n',
        decreases chars.len() - i,
    {
        i += 1;
    }
    proof {
        lemma_first_index(chars@, '\n', i as int);
    }
    if i < chars.len() {
        Some(
            (
                to_text(&slice_chars(&chars, 0, i)),
                to_text(&slice_chars(&chars, i + 1, chars.len())),
            ),
        )
    } else {
        None
    }
}

/// The line that links a pull request to its issue.
pub open spec fn issue_link(title: Seq<char>, org: Seq<char>, repo: Seq<char>, number: u64) -> Seq<
    char,
> {
    "\n\nResolves Issue: ["@ + title + "](https://github.com/"@ + org + "/"@ + repo + "/issues/"@
        + digits_of(number as nat) + ")"@
}

/// The text that a pull request is begun with: the log of its commits, and
/// a link to the issue that it resolves, if one is linked.
pub fn get_template_for_pr(log: String, issue: Option<(u64, String)>, org: &str, repo: &str) -> (
    template: String
)
    ensures
        template@ == match issue {
            Some((number, title)) => if number == 0 {
                log@
            } else {
                log@ + issue_link(title@, org@, repo@, number)
            },
            None => log@,
        },
{
    let mut template = log;
    match issue {
        Some((number, title)) => {
            if number != 0 {
                let ghost begin = template@;
                template.append("\n\nResolves Issue: [");
                template.append(title.as_str());
                template.append("](https://github.com/");
                template.append(org);
                template.append("/");
                template.append(repo);
                template.append("/issues/");
                let digits = to_text(&write_decimal(number));
                template.append(digits.as_str());
                template.append(")");
                assert(template@ =~= begin + issue_link(title@, org@, repo@, number));
            }
        },
        None => {},
    }
    template
}

} // verus!

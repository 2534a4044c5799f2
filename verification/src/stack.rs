//! A stack is the set of managed branches that share a base name, ordered by
//! position. This module lists a stack and moves within it.

use vstd::prelude::*;
use crate::branch::{decode, full_name, parse_branch, BranchId, ParsedBranch};
use crate::config::SavedConfig;
use crate::error::StackError;
use crate::text::{same_chars, to_chars};

verus! {

/// Where to go from the current branch of a stack.
#[derive(Clone, Copy, Debug, PartialEq, Eq, Structural)]
pub enum CheckoutDir {
    /// The branch right after the current one.
    Next,
    /// The branch right before the current one.
    Prev,
    /// The first branch of the stack.
    Start,
    /// The branch at the given position, in hundredths.
    Part(u32),
    /// Nowhere.
    Unknown,
}

/// The texts of a list of strings.
pub open spec fn texts(names: Seq<String>) -> Seq<Seq<char>> {
    Seq::new(names.len(), |i: int| names[i]@)
}

/// The values of a list of branches.
pub open spec fn ids(branches: Seq<ParsedBranch>) -> Seq<BranchId> {
    Seq::new(branches.len(), |i: int| branches[i]@)
}

/// The place of a position in the order of a stack: a branch without
/// position comes before all others, then positions ascend.
pub open spec fn rank(position: Option<u32>) -> int {
    match position {
        None => -1,
        Some(p) => p as int,
    }
}

/// The branches that carry the managed prefix.
pub open spec fn in_namespace() -> spec_fn(BranchId) -> bool {
    |b: BranchId| b.prefix is Some
}

/// The branches with the given base name.
pub open spec fn with_base(base: Seq<char>) -> spec_fn(BranchId) -> bool {
    |b: BranchId| b.base == base
}

/// The branches whose position has the given rank.
pub open spec fn at_rank(k: int) -> spec_fn(BranchId) -> bool {
    |b: BranchId| rank(b.position) == k
}

/// The branches that come after the given position.
pub open spec fn after(position: Option<u32>) -> spec_fn(BranchId) -> bool {
    |b: BranchId| rank(b.position) > rank(position)
}

/// The branches that the names stand for, in the order of the names.
pub open spec fn decode_all(names: Seq<Seq<char>>, prefix: Seq<char>, sep: Seq<char>) -> Seq<
    BranchId,
> {
    Seq::new(names.len(), |i: int| decode(names[i], prefix, sep))
}

/// The managed branches among `names`: those whose name carries the prefix.
pub open spec fn managed(names: Seq<Seq<char>>, prefix: Seq<char>, sep: Seq<char>) -> Seq<
    BranchId,
> {
    decode_all(names, prefix, sep).filter(in_namespace())
}

/// The managed branches among `names` with the given base, as listed.
pub open spec fn matching(
    names: Seq<Seq<char>>,
    prefix: Seq<char>,
    sep: Seq<char>,
    base: Seq<char>,
) -> Seq<BranchId> {
    managed(names, prefix, sep).filter(with_base(base))
}

/// `sorted` with `b` put behind the last branch that does not come after it.
pub open spec fn insert_by_position(sorted: Seq<BranchId>, b: BranchId) -> Seq<BranchId>
    decreases sorted.len(),
{
    if sorted.len() > 0 && rank(sorted.last().position) > rank(b.position) {
        insert_by_position(sorted.drop_last(), b).push(sorted.last())
    } else {
        sorted.push(b)
    }
}

/// The branches of `s` in ascending order of position; branches of equal
/// position keep the order they have in `s`.
pub open spec fn sort_by_position(s: Seq<BranchId>) -> Seq<BranchId>
    decreases s.len(),
{
    if s.len() == 0 {
        s
    } else {
        insert_by_position(sort_by_position(s.drop_last()), s.last())
    }
}

/// Whether the positions of `s` ascend.
pub open spec fn sorted_by_position(s: Seq<BranchId>) -> bool {
    forall|i: int, j: int|
        0 <= i <= j < s.len() ==> rank(#[trigger] s[i].position) <= rank(#[trigger] s[j].position)
}

/// The stack with the given base: its managed branches in order of position.
pub open spec fn siblings(
    names: Seq<Seq<char>>,
    prefix: Seq<char>,
    sep: Seq<char>,
    base: Seq<char>,
) -> Seq<BranchId> {
    sort_by_position(matching(names, prefix, sep, base))
}

/// The index of the first branch of `s` with the given position.
pub open spec fn index_of_position(s: Seq<BranchId>, position: Option<u32>) -> Option<int>
    decreases s.len(),
{
    if s.len() == 0 {
        None
    } else {
        match index_of_position(s.drop_last(), position) {
            Some(i) => Some(i),
            None => if s.last().position == position {
                Some(s.len() - 1)
            } else {
                None
            },
        }
    }
}

/// The branch that `dir` leads to from a branch with position `current` in
/// the stack `s`. `Next` and `Prev` move by one from where the current
/// position is found in the stack; `Start` and `Part` do not depend on it.
pub open spec fn neighbour(s: Seq<BranchId>, current: Option<u32>, dir: CheckoutDir) -> Option<
    BranchId,
> {
    match dir {
        CheckoutDir::Next => match index_of_position(s, current) {
            Some(i) => if i + 1 < s.len() {
                Some(s[i + 1])
            } else {
                None
            },
            None => None,
        },
        CheckoutDir::Prev => match index_of_position(s, current) {
            Some(i) => if i >= 1 {
                Some(s[i - 1])
            } else {
                None
            },
            None => None,
        },
        CheckoutDir::Start => if s.len() > 0 {
            Some(s[0])
        } else {
            None
        },
        CheckoutDir::Part(p) => match index_of_position(s, Some(p)) {
            Some(i) => Some(s[i]),
            None => None,
        },
        CheckoutDir::Unknown => None,
    }
}

/// The branches of the stack `s` that come after `position`.
pub open spec fn children_of(s: Seq<BranchId>, position: Option<u32>) -> Seq<BranchId> {
    s.filter(after(position))
}

/// The first branch with a position is found where its position stands and
/// no branch before it has that position.
pub proof fn lemma_index_of_position(s: Seq<BranchId>, position: Option<u32>)
    ensures
        match index_of_position(s, position) {
            Some(i) => 0 <= i < s.len() && s[i].position == position && forall|j: int|
                0 <= j < i ==> (#[trigger] s[j]).position != position,
            None => forall|j: int| 0 <= j < s.len() ==> (#[trigger] s[j]).position != position,
        },
    decreases s.len(),
{
    if s.len() > 0 {
        lemma_index_of_position(s.drop_last(), position);
        assert forall|j: int| 0 <= j < s.len() - 1 implies s.drop_last()[j] == s[j] by {}
        match index_of_position(s.drop_last(), position) {
            Some(i) => {
                assert(s.drop_last()[i] == s[i]);
                assert forall|j: int| 0 <= j < i implies (#[trigger] s[j]).position
                    != position by {
                    assert(s.drop_last()[j] == s[j]);
                }
            },
            None => {
                assert forall|j: int| 0 <= j < s.len() - 1 implies (#[trigger] s[j]).position
                    != position by {
                    assert(s.drop_last()[j] == s[j]);
                }
            },
        }
    }
}

proof fn lemma_insert_at(s: Seq<BranchId>, b: BranchId, at: int)
    requires
        0 <= at <= s.len(),
        forall|j: int| at <= j < s.len() ==> rank((#[trigger] s[j]).position) > rank(b.position),
        at == 0 || rank(s[at - 1].position) <= rank(b.position),
    ensures
        insert_by_position(s, b) == s.insert(at, b),
    decreases s.len() - at,
{
    if at < s.len() {
        assert(rank(s[s.len() - 1].position) > rank(b.position));
        assert forall|j: int| at <= j < s.drop_last().len() implies rank(
            (#[trigger] s.drop_last()[j]).position,
        ) > rank(b.position) by {
            assert(s.drop_last()[j] == s[j]);
        }
        lemma_insert_at(s.drop_last(), b, at);
        assert(s.insert(at, b) =~= s.drop_last().insert(at, b).push(s.last()));
    } else {
        assert(s.insert(at, b) =~= s.push(b));
    }
}

proof fn lemma_insert_shape(s: Seq<BranchId>, b: BranchId)
    ensures
        exists|at: int|
            0 <= at <= s.len() && #[trigger] s.insert(at, b) == insert_by_position(s, b) && (
            forall|j: int| at <= j < s.len() ==> rank((#[trigger] s[j]).position) > rank(b.position))
                && (at == 0 || rank(s[at - 1].position) <= rank(b.position)),
    decreases s.len(),
{
    if s.len() > 0 && rank(s.last().position) > rank(b.position) {
        lemma_insert_shape(s.drop_last(), b);
        let at = choose|at: int|
            0 <= at <= s.drop_last().len() && #[trigger] s.drop_last().insert(at, b)
                == insert_by_position(s.drop_last(), b) && (forall|j: int|
                at <= j < s.drop_last().len() ==> rank((#[trigger] s.drop_last()[j]).position)
                    > rank(b.position)) && (at == 0 || rank(s.drop_last()[at - 1].position) <= rank(
                b.position,
            ));
        assert(s.insert(at, b) =~= s.drop_last().insert(at, b).push(s.last()));
        assert forall|j: int| at <= j < s.len() implies rank((#[trigger] s[j]).position) > rank(
            b.position,
        ) by {
            if j < s.len() - 1 {
                assert(s.drop_last()[j] == s[j]);
            }
        }
        if at > 0 {
            assert(s.drop_last()[at - 1] == s[at - 1]);
        }
    } else {
        assert(s.insert(s.len() as int, b) =~= s.push(b));
    }
}

/// Putting a branch into an ascending stack leaves it ascending.
pub proof fn lemma_insert_keeps_sorted(s: Seq<BranchId>, b: BranchId)
    requires
        sorted_by_position(s),
    ensures
        sorted_by_position(insert_by_position(s, b)),
{
    lemma_insert_shape(s, b);
    let at = choose|at: int|
        0 <= at <= s.len() && #[trigger] s.insert(at, b) == insert_by_position(s, b) && (forall|
            j: int,
        |
            at <= j < s.len() ==> rank((#[trigger] s[j]).position) > rank(b.position)) && (at == 0
            || rank(s[at - 1].position) <= rank(b.position));
    let t = s.insert(at, b);
    s.insert_ensures(at, b);
    assert forall|i: int, j: int| 0 <= i <= j < t.len() implies rank(#[trigger] t[i].position)
        <= rank(#[trigger] t[j].position) by {
        if i < at {
            assert(t[i] == s[i]);
            assert(rank(s[i].position) <= rank(s[at - 1].position));
            if j > at {
                assert(t[j] == s[j - 1]);
            }
        } else if i == at {
            if j > at {
                assert(t[j] == s[j - 1]);
            }
        } else {
            assert(t[i] == s[i - 1]);
            assert(t[j] == s[j - 1]);
        }
    }
}

/// A stack comes out in ascending order of position.
pub proof fn lemma_sort_is_sorted(s: Seq<BranchId>)
    ensures
        sorted_by_position(sort_by_position(s)),
    decreases s.len(),
{
    if s.len() > 0 {
        lemma_sort_is_sorted(s.drop_last());
        lemma_insert_keeps_sorted(sort_by_position(s.drop_last()), s.last());
    }
}

proof fn lemma_insert_at_rank(s: Seq<BranchId>, b: BranchId, k: int)
    ensures
        insert_by_position(s, b).filter(at_rank(k)) == if rank(b.position) == k {
            s.filter(at_rank(k)).push(b)
        } else {
            s.filter(at_rank(k))
        },
    decreases s.len(),
{
    reveal(Seq::filter);
    if s.len() > 0 && rank(s.last().position) > rank(b.position) {
        lemma_insert_at_rank(s.drop_last(), b, k);
        let t = insert_by_position(s.drop_last(), b).push(s.last());
        assert(t.drop_last() =~= insert_by_position(s.drop_last(), b));
    } else {
        assert(s.push(b).drop_last() =~= s);
    }
}

/// Sorting is stable: the branches of any one position stand in the sorted
/// stack in the order in which they were listed.
pub proof fn lemma_sort_is_stable(s: Seq<BranchId>, k: int)
    ensures
        sort_by_position(s).filter(at_rank(k)) == s.filter(at_rank(k)),
    decreases s.len(),
{
    reveal(Seq::filter);
    if s.len() > 0 {
        lemma_sort_is_stable(s.drop_last(), k);
        lemma_insert_at_rank(sort_by_position(s.drop_last()), s.last(), k);
    }
}

/// Sorting neither drops nor adds a branch.
pub proof fn lemma_sort_keeps_all(s: Seq<BranchId>)
    ensures
        sort_by_position(s).to_multiset() == s.to_multiset(),
    decreases s.len(),
{
    broadcast use vstd::seq_lib::group_to_multiset_ensures;

    if s.len() > 0 {
        lemma_sort_keeps_all(s.drop_last());
        let t = sort_by_position(s.drop_last());
        lemma_insert_shape(t, s.last());
        let at = choose|at: int|
            0 <= at <= t.len() && #[trigger] t.insert(at, s.last()) == insert_by_position(
                t,
                s.last(),
            ) && (forall|j: int|
                at <= j < t.len() ==> rank((#[trigger] t[j]).position) > rank(s.last().position))
                && (at == 0 || rank(t[at - 1].position) <= rank(s.last().position));
        vstd::seq_lib::to_multiset_insert(t, at, s.last());
        assert(s =~= s.drop_last().push(s.last()));
        vstd::seq_lib::to_multiset_build(s.drop_last(), s.last());
    }
}

/// At the first branch of a stack nothing comes before, at the last one
/// nothing comes after, and `Start` leads to the branch of lowest position
/// whenever the stack has a branch.
pub proof fn lemma_neighbour_at_the_ends(s: Seq<BranchId>, current: Option<u32>)
    ensures
        index_of_position(s, current) == Some(0int) ==> neighbour(s, current, CheckoutDir::Prev)
            is None,
        index_of_position(s, current) == Some(s.len() - 1) ==> neighbour(
            s,
            current,
            CheckoutDir::Next,
        ) is None,
        s.len() > 0 ==> neighbour(s, current, CheckoutDir::Start) == Some(s[0]),
        s.len() > 0 && sorted_by_position(s) ==> forall|j: int|
            0 <= j < s.len() ==> rank(s[0].position) <= rank((#[trigger] s[j]).position),
{
}

proof fn lemma_matching_step(
    names: Seq<Seq<char>>,
    prefix: Seq<char>,
    sep: Seq<char>,
    base: Seq<char>,
    i: int,
)
    requires
        0 <= i < names.len(),
    ensures
        managed(names.take(i + 1), prefix, sep) == if decode(names[i], prefix, sep).prefix
            is Some {
            managed(names.take(i), prefix, sep).push(decode(names[i], prefix, sep))
        } else {
            managed(names.take(i), prefix, sep)
        },
        matching(names.take(i + 1), prefix, sep, base) == if decode(names[i], prefix, sep).prefix
            is Some && decode(names[i], prefix, sep).base == base {
            matching(names.take(i), prefix, sep, base).push(decode(names[i], prefix, sep))
        } else {
            matching(names.take(i), prefix, sep, base)
        },
{
    reveal(Seq::filter);
    let all = decode_all(names.take(i + 1), prefix, sep);
    assert(all.drop_last() =~= decode_all(names.take(i), prefix, sep));
    assert(all.last() == decode(names[i], prefix, sep));
    let kept = managed(names.take(i), prefix, sep);
    if all.last().prefix is Some {
        assert(kept.push(all.last()).drop_last() =~= kept);
    }
}

proof fn lemma_matching_none(
    names: Seq<Seq<char>>,
    prefix: Seq<char>,
    sep: Seq<char>,
    base: Seq<char>,
)
    ensures
        managed(names.take(0), prefix, sep) == Seq::<BranchId>::empty(),
        matching(names.take(0), prefix, sep, base) == Seq::<BranchId>::empty(),
{
    reveal(Seq::filter);
    assert(decode_all(names.take(0), prefix, sep) =~= Seq::<BranchId>::empty());
}

fn comes_after(a: Option<u32>, b: Option<u32>) -> (r: bool)
    ensures
        r == (rank(a) > rank(b)),
{
    match a {
        None => false,
        Some(x) => match b {
            None => true,
            Some(y) => x > y,
        },
    }
}

fn same_position(a: Option<u32>, b: Option<u32>) -> (r: bool)
    ensures
        r == (a == b),
{
    match a {
        None => b.is_none(),
        Some(x) => match b {
            None => false,
            Some(y) => x == y,
        },
    }
}

/// The names that carry the managed prefix.
pub open spec fn managed_name(prefix: Seq<char>, sep: Seq<char>) -> spec_fn(Seq<char>) -> bool {
    |name: Seq<char>| decode(name, prefix, sep).prefix is Some
}

/// The names of the managed branches among `names`, in their order.
pub fn all_managed_branches(names: &Vec<String>, cfg: &SavedConfig) -> (out: Vec<String>)
    ensures
        texts(out@) == texts(names@).filter(managed_name(cfg.branch_prefix@, cfg.branch_split@)),
{
    let mut out: Vec<String> = Vec::new();
    let mut i: usize = 0;
    let ghost keep = managed_name(cfg.branch_prefix@, cfg.branch_split@);
    proof {
        reveal(Seq::filter);
        assert(texts(names@).take(0) =~= Seq::<Seq<char>>::empty());
        assert(texts(out@) =~= Seq::<Seq<char>>::empty());
    }
    while i < names.len()
        invariant
            i <= names.len(),
            keep == managed_name(cfg.branch_prefix@, cfg.branch_split@),
            texts(out@) == texts(names@).take(i as int).filter(keep),
        decreases names.len() - i,
    {
        proof {
            reveal(Seq::filter);
            assert(texts(names@).take(i + 1).drop_last() =~= texts(names@).take(i as int));
            assert(texts(names@).take(i + 1).last() == names@[i as int]@);
        }
        if parse_branch(names[i].as_str(), cfg).prefix.is_some() {
            let ghost before = texts(out@);
            out.push(names[i].clone());
            assert(texts(out@) =~= before.push(names@[i as int]@));
        }
        i += 1;
    }
    assert(texts(names@).take(names.len() as int) =~= texts(names@));
    out
}

/// The managed branches among `names`, in the order of the names.
pub fn all_parsed_managed_branches(names: &Vec<String>, cfg: &SavedConfig) -> (out: Vec<
    ParsedBranch,
>)
    ensures
        ids(out@) == managed(texts(names@), cfg.branch_prefix@, cfg.branch_split@),
{
    let mut out: Vec<ParsedBranch> = Vec::new();
    let mut i: usize = 0;
    proof {
        lemma_matching_none(texts(names@), cfg.branch_prefix@, cfg.branch_split@, Seq::empty());
        assert(ids(out@) =~= Seq::<BranchId>::empty());
    }
    while i < names.len()
        invariant
            i <= names.len(),
            ids(out@) == managed(
                texts(names@).take(i as int),
                cfg.branch_prefix@,
                cfg.branch_split@,
            ),
        decreases names.len() - i,
    {
        let b = parse_branch(names[i].as_str(), cfg);
        proof {
            lemma_matching_step(
                texts(names@),
                cfg.branch_prefix@,
                cfg.branch_split@,
                Seq::empty(),
                i as int,
            );
        }
        if b.prefix.is_some() {
            let ghost before = ids(out@);
            out.push(b);
            assert(ids(out@) =~= before.push(b@));
        }
        i += 1;
    }
    assert(texts(names@).take(names.len() as int) =~= texts(names@));
    out
}

/// The stack with the given base among `names`: its managed branches in
/// ascending order of position, a branch without position first, and
/// branches of equal position in the order in which `names` lists them.
pub fn get_sorted_matching_branches(names: &Vec<String>, base: &str, cfg: &SavedConfig) -> (out:
    Vec<ParsedBranch>)
    ensures
        ids(out@) == siblings(texts(names@), cfg.branch_prefix@, cfg.branch_split@, base@),
        sorted_by_position(ids(out@)),
        forall|k: int|
            (#[trigger] ids(out@).filter(at_rank(k))) == matching(
                texts(names@),
                cfg.branch_prefix@,
                cfg.branch_split@,
                base@,
            ).filter(at_rank(k)),
{
    let wanted = to_chars(base);
    let mut out: Vec<ParsedBranch> = Vec::new();
    let mut i: usize = 0;
    proof {
        lemma_matching_none(texts(names@), cfg.branch_prefix@, cfg.branch_split@, base@);
        assert(ids(out@) =~= Seq::<BranchId>::empty());
    }
    while i < names.len()
        invariant
            i <= names.len(),
            wanted@ == base@,
            ids(out@) == sort_by_position(
                matching(
                    texts(names@).take(i as int),
                    cfg.branch_prefix@,
                    cfg.branch_split@,
                    base@,
                ),
            ),
        decreases names.len() - i,
    {
        let b = parse_branch(names[i].as_str(), cfg);
        let ghost listed = matching(
            texts(names@).take(i as int),
            cfg.branch_prefix@,
            cfg.branch_split@,
            base@,
        );
        proof {
            lemma_matching_step(
                texts(names@),
                cfg.branch_prefix@,
                cfg.branch_split@,
                base@,
                i as int,
            );
        }
        if b.prefix.is_some() && same_chars(&to_chars(b.base.as_str()), &wanted) {
            let ghost before = ids(out@);
            let mut at: usize = out.len();
            while at > 0 && comes_after(out[at - 1].partx100, b.partx100)
                invariant
                    at <= out.len(),
                    before == ids(out@),
                    forall|j: int|
                        at <= j < before.len() ==> rank((#[trigger] before[j]).position) > rank(
                            b@.position,
                        ),
                decreases at,
            {
                assert(before[at - 1] == out@[at - 1]@);
                at -= 1;
            }
            proof {
                if at > 0 {
                    assert(before[at - 1] == out@[at - 1]@);
                }
                lemma_insert_at(before, b@, at as int);
                assert(listed.push(b@).drop_last() =~= listed);
            }
            out.insert(at, b);
            assert(ids(out@) =~= before.insert(at as int, b@));
        }
        i += 1;
    }
    proof {
        assert(texts(names@).take(names.len() as int) =~= texts(names@));
        let listed = matching(texts(names@), cfg.branch_prefix@, cfg.branch_split@, base@);
        lemma_sort_is_sorted(listed);
        assert forall|k: int|
            (#[trigger] ids(out@).filter(at_rank(k))) == listed.filter(at_rank(k)) by {
            lemma_sort_is_stable(listed, k);
        }
    }
    out
}

/// Finds the current branch in its stack, by its position.
pub fn locate(current: &ParsedBranch, stack: &Vec<ParsedBranch>) -> (found: Result<
    usize,
    StackError,
>)
    ensures
        match found {
            Ok(i) => index_of_position(ids(stack@), current@.position) == Some(i as int) && i
                < stack.len(),
            Err(e) => e == StackError::NotInStack && index_of_position(
                ids(stack@),
                current@.position,
            ) is None,
        },
{
    find_position_in(stack, current.partx100)
}

fn find_position_in(stack: &Vec<ParsedBranch>, position: Option<u32>) -> (found: Result<
    usize,
    StackError,
>)
    ensures
        match found {
            Ok(i) => index_of_position(ids(stack@), position) == Some(i as int) && i
                < stack.len(),
            Err(e) => e == StackError::NotInStack && index_of_position(ids(stack@), position)
                is None,
        },
{
    let mut i: usize = 0;
    assert(ids(stack@).take(0) =~= Seq::<BranchId>::empty());
    while i < stack.len()
        invariant
            i <= stack.len(),
            index_of_position(ids(stack@).take(i as int), position) is None,
        decreases stack.len() - i,
    {
        assert(ids(stack@).take(i + 1).drop_last() =~= ids(stack@).take(i as int));
        if same_position(stack[i].partx100, position) {
            proof {
                lemma_index_found_stays(ids(stack@), position, i as int + 1);
            }
            return Ok(i);
        }
        i += 1;
    }
    assert(ids(stack@).take(stack.len() as int) =~= ids(stack@));
    Err(StackError::NotInStack)
}

proof fn lemma_index_found_stays(s: Seq<BranchId>, position: Option<u32>, n: int)
    requires
        0 <= n <= s.len(),
        index_of_position(s.take(n), position) is Some,
    ensures
        index_of_position(s, position) == index_of_position(s.take(n), position),
    decreases s.len() - n,
{
    if n < s.len() {
        assert(s.drop_last().take(n) =~= s.take(n));
        lemma_index_found_stays(s.drop_last(), position, n);
    } else {
        assert(s.take(n) =~= s);
    }
}

/// The branch that `dir` leads to from `current` in its stack `stack`.
pub fn navigate(current: &ParsedBranch, stack: &Vec<ParsedBranch>, dir: CheckoutDir) -> (target:
    Option<ParsedBranch>)
    ensures
        match target {
            Some(b) => neighbour(ids(stack@), current@.position, dir) == Some(b@),
            None => neighbour(ids(stack@), current@.position, dir) is None,
        },
{
    match dir {
        CheckoutDir::Next => match find_position_in(stack, current.partx100) {
            Ok(i) => if i + 1 < stack.len() {
                Some(stack[i + 1].clone())
            } else {
                None
            },
            Err(_) => None,
        },
        CheckoutDir::Prev => match find_position_in(stack, current.partx100) {
            Ok(i) => if i >= 1 {
                Some(stack[i - 1].clone())
            } else {
                None
            },
            Err(_) => None,
        },
        CheckoutDir::Start => if stack.len() > 0 {
            Some(stack[0].clone())
        } else {
            None
        },
        CheckoutDir::Part(p) => match find_position_in(stack, Some(p)) {
            Ok(i) => Some(stack[i].clone()),
            Err(_) => None,
        },
        CheckoutDir::Unknown => None,
    }
}

/// The name of the branch that `dir` leads to from `current`, among the
/// branches that `names` lists.
pub fn get_branch_for_dir(
    current: &ParsedBranch,
    names: &Vec<String>,
    dir: CheckoutDir,
    cfg: &SavedConfig,
) -> (name: Option<String>)
    ensures
        match name {
            Some(n) => exists|b: BranchId|
                neighbour(
                    siblings(
                        texts(names@),
                        cfg.branch_prefix@,
                        cfg.branch_split@,
                        current@.base,
                    ),
                    current@.position,
                    dir,
                ) == Some(b) && n@ == full_name(b, cfg.branch_split@),
            None => neighbour(
                siblings(texts(names@), cfg.branch_prefix@, cfg.branch_split@, current@.base),
                current@.position,
                dir,
            ) is None,
        },
{
    let stack = get_sorted_matching_branches(names, current.base.as_str(), cfg);
    match navigate(current, &stack, dir) {
        Some(b) => Some(b.full(cfg)),
        None => None,
    }
}

/// The branches of a stack that come after `position`, in the order of the
/// stack.
pub fn branches_after(stack: &Vec<ParsedBranch>, position: Option<u32>) -> (out: Vec<ParsedBranch>)
    ensures
        ids(out@) == children_of(ids(stack@), position),
{
    let mut out: Vec<ParsedBranch> = Vec::new();
    let mut i: usize = 0;
    proof {
        reveal(Seq::filter);
        assert(ids(stack@).take(0) =~= Seq::<BranchId>::empty());
        assert(ids(out@) =~= Seq::<BranchId>::empty());
    }
    while i < stack.len()
        invariant
            i <= stack.len(),
            ids(out@) == children_of(ids(stack@).take(i as int), position),
        decreases stack.len() - i,
    {
        proof {
            reveal(Seq::filter);
            assert(ids(stack@).take(i + 1).drop_last() =~= ids(stack@).take(i as int));
        }
        if comes_after(stack[i].partx100, position) {
            let ghost before = ids(out@);
            out.push(stack[i].clone());
            assert(ids(out@) =~= before.push(stack@[i as int]@));
        }
        i += 1;
    }
    assert(ids(stack@).take(stack.len() as int) =~= ids(stack@));
    out
}

/// The branches that come after `branch` in its stack, in ascending order of
/// position: those that a change of `branch` has to be carried on to.
pub fn get_children_branches(branch: &ParsedBranch, names: &Vec<String>, cfg: &SavedConfig) -> (out:
    Vec<ParsedBranch>)
    ensures
        ids(out@) == children_of(
            siblings(texts(names@), cfg.branch_prefix@, cfg.branch_split@, branch@.base),
            branch@.position,
        ),
{
    let stack = get_sorted_matching_branches(names, branch.base.as_str(), cfg);
    branches_after(&stack, branch.partx100)
}

} // verus!

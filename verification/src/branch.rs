//! The naming protocol of managed branches: a branch name carries an optional
//! prefix, a base name and an optional stack position, and is read back from
//! its text alone.

use vstd::prelude::*;
use crate::config::SavedConfig;
use crate::decimal::{
    is_digit, lemma_position_text_chars, lemma_position_text_reads_back, position_of_text,
    position_text, read_position, write_position,
};
use crate::text::{
    append_chars, find_last, has_prefix, last_index_of, lemma_last_index_is_last,
    lemma_last_index_of, matches_at, occurs_at, slice_chars, to_chars, to_text,
};

verus! {

/// A branch name taken apart.
#[derive(Debug, PartialEq, Eq)]
pub struct ParsedBranch {
    /// The managed prefix, if the name carries it.
    pub prefix: Option<String>,
    /// The name of the feature; all the branches of a stack share it.
    pub base: String,
    /// The place in the stack, in hundredths (`1.5` is 150).
    pub partx100: Option<u32>,
}

/// The mathematical value of a `ParsedBranch`.
pub struct BranchId {
    pub prefix: Option<Seq<char>>,
    pub base: Seq<char>,
    pub position: Option<u32>,
}

impl View for ParsedBranch {
    type V = BranchId;

    open spec fn view(&self) -> BranchId {
        BranchId {
            prefix: match self.prefix {
                Some(p) => Some(p@),
                None => None,
            },
            base: self.base@,
            position: self.partx100,
        }
    }
}

impl Clone for ParsedBranch {
    fn clone(&self) -> (copy: Self)
        ensures
            copy@ == self@,
    {
        ParsedBranch {
            prefix: match &self.prefix {
                Some(p) => Some(p.clone()),
                None => None,
            },
            base: self.base.clone(),
            partx100: self.partx100,
        }
    }
}

/// The text `part-` that introduces a position.
pub open spec fn part_tag() -> Seq<char> {
    seq!['p', 'a', 'r', 't', '-']
}

/// The segment `starts` that marks a start branch.
pub open spec fn starts_tag() -> Seq<char> {
    seq!['s', 't', 'a', 'r', 't', 's']
}

/// The text `origin/` that leads the name of a remote-tracking branch.
pub open spec fn origin_lead() -> Seq<char> {
    seq!['o', 'r', 'i', 'g', 'i', 'n', '/']
}

/// What stands before a position in a name: the separator and `part-`.
pub open spec fn position_marker(sep: Seq<char>) -> Seq<char> {
    sep + part_tag()
}

/// The prefix segment of a name with its separator; empty without a prefix.
pub open spec fn lead_of(b: BranchId, sep: Seq<char>) -> Seq<char> {
    match b.prefix {
        Some(p) => p + sep,
        None => Seq::<char>::empty(),
    }
}

/// The position segment of a name with its separator; empty without a
/// position.
pub open spec fn tail_of(b: BranchId, sep: Seq<char>) -> Seq<char> {
    match b.position {
        Some(p) => position_marker(sep) + position_text(p),
        None => Seq::<char>::empty(),
    }
}

/// The name of the branch itself: prefix, base and position, joined by `sep`.
#[verifier::opaque]
pub open spec fn full_name(b: BranchId, sep: Seq<char>) -> Seq<char> {
    lead_of(b, sep) + b.base + tail_of(b, sep)
}

/// The name of the branch's start marker: as `full_name`, with the segment
/// `starts` right after the prefix.
#[verifier::opaque]
pub open spec fn start_name(b: BranchId, sep: Seq<char>) -> Seq<char> {
    lead_of(b, sep) + starts_tag() + sep + b.base + tail_of(b, sep)
}

/// What is left of `raw` once a leading `prefix` and `sep` are taken off; all
/// of `raw` if it does not begin with them.
pub open spec fn without_lead(raw: Seq<char>, prefix: Seq<char>, sep: Seq<char>) -> Seq<char> {
    if has_prefix(raw, prefix + sep) {
        raw.skip((prefix + sep).len() as int)
    } else {
        raw
    }
}

/// The position that the end of `rest` writes after the last position marker,
/// with the index of that marker.
pub open spec fn marked_position(rest: Seq<char>, sep: Seq<char>) -> Option<(int, u32)> {
    match last_index_of(rest, position_marker(sep)) {
        Some(i) => match position_of_text(rest.skip(i + position_marker(sep).len())) {
            Some(p) => Some((i, p)),
            None => None,
        },
        None => None,
    }
}

/// The branch that the name `raw` stands for, under the given prefix and
/// separator. Every text is a name: one without a readable position stands
/// for a branch without position whose base is all that follows the prefix.
#[verifier::opaque]
pub open spec fn decode(raw: Seq<char>, prefix: Seq<char>, sep: Seq<char>) -> BranchId {
    let rest = without_lead(raw, prefix, sep);
    BranchId {
        prefix: if has_prefix(raw, prefix + sep) {
            Some(prefix)
        } else {
            None
        },
        base: match marked_position(rest, sep) {
            Some((i, p)) => rest.take(i),
            None => rest,
        },
        position: match marked_position(rest, sep) {
            Some((i, p)) => Some(p),
            None => None,
        },
    }
}

fn part_tag_chars() -> (v: Vec<char>)
    ensures
        v@ == part_tag(),
{
    let mut v: Vec<char> = Vec::new();
    v.push('p');
    v.push('a');
    v.push('r');
    v.push('t');
    v.push('-');
    assert(v@ =~= part_tag());
    v
}

fn starts_tag_chars() -> (v: Vec<char>)
    ensures
        v@ == starts_tag(),
{
    let mut v: Vec<char> = Vec::new();
    v.push('s');
    v.push('t');
    v.push('a');
    v.push('r');
    v.push('t');
    v.push('s');
    assert(v@ =~= starts_tag());
    v
}

fn origin_lead_chars() -> (v: Vec<char>)
    ensures
        v@ == origin_lead(),
{
    let mut v: Vec<char> = Vec::new();
    v.push('o');
    v.push('r');
    v.push('i');
    v.push('g');
    v.push('i');
    v.push('n');
    v.push('/');
    assert(v@ =~= origin_lead());
    v
}

impl ParsedBranch {
    fn name_chars(&self, cfg: &SavedConfig, start: bool) -> (v: Vec<char>)
        ensures
            v@ == if start {
                start_name(self@, cfg.branch_split@)
            } else {
                full_name(self@, cfg.branch_split@)
            },
    {
        proof {
            reveal(full_name);
            reveal(start_name);
        }
        let sep = to_chars(cfg.branch_split.as_str());
        let mut v: Vec<char> = Vec::new();
        match &self.prefix {
            Some(p) => {
                let p_chars = to_chars(p.as_str());
                append_chars(&mut v, &p_chars);
                append_chars(&mut v, &sep);
            },
            None => {},
        }
        assert(v@ =~= lead_of(self@, sep@));
        if start {
            let tag = starts_tag_chars();
            append_chars(&mut v, &tag);
            append_chars(&mut v, &sep);
        }
        let base = to_chars(self.base.as_str());
        append_chars(&mut v, &base);
        match self.partx100 {
            Some(p) => {
                let tag = part_tag_chars();
                let number = write_position(p);
                append_chars(&mut v, &sep);
                append_chars(&mut v, &tag);
                append_chars(&mut v, &number);
                assert(v@ =~= if start {
                    start_name(self@, sep@)
                } else {
                    full_name(self@, sep@)
                });
            },
            None => {
                assert(v@ =~= if start {
                    start_name(self@, sep@)
                } else {
                    full_name(self@, sep@)
                });
            },
        }
        v
    }

    /// The name of the branch itself.
    pub fn full(&self, cfg: &SavedConfig) -> (name: String)
        ensures
            name@ == full_name(self@, cfg.branch_split@),
    {
        to_text(&self.name_chars(cfg, false))
    }

    /// The name of the branch's start marker.
    pub fn start(&self, cfg: &SavedConfig) -> (name: String)
        ensures
            name@ == start_name(self@, cfg.branch_split@),
    {
        to_text(&self.name_chars(cfg, true))
    }

    /// The name under which the remote's copy of the branch is tracked.
    pub fn remote_full(&self, cfg: &SavedConfig) -> (name: String)
        ensures
            name@ == origin_lead() + full_name(self@, cfg.branch_split@),
    {
        let mut v = origin_lead_chars();
        append_chars(&mut v, &self.name_chars(cfg, false));
        to_text(&v)
    }

    /// The name under which the remote's copy of the start marker is tracked.
    pub fn remote_start(&self, cfg: &SavedConfig) -> (name: String)
        ensures
            name@ == origin_lead() + start_name(self@, cfg.branch_split@),
    {
        let mut v = origin_lead_chars();
        append_chars(&mut v, &self.name_chars(cfg, true));
        to_text(&v)
    }
}

/// Whether `branch` names a start marker of the managed namespace: it begins
/// with the prefix, the separator and `starts`.
pub fn is_start_branch(branch: &str, cfg: &SavedConfig) -> (b: bool)
    ensures
        b == has_prefix(branch@, cfg.branch_prefix@ + cfg.branch_split@ + starts_tag()),
{
    let mut lead = to_chars(cfg.branch_prefix.as_str());
    append_chars(&mut lead, &to_chars(cfg.branch_split.as_str()));
    append_chars(&mut lead, &starts_tag_chars());
    matches_at(&to_chars(branch), &lead, 0)
}

/// Reads a stack position as a user or a branch name writes it (`2`, `1.5`):
/// the number of hundredths, cut off after the second fractional digit.
pub fn parse_partx100(part: &str) -> (position: Option<u32>)
    ensures
        position == position_of_text(part@),
{
    read_position(&to_chars(part))
}

/// Takes a branch name apart. Never fails: see `decode`.
pub fn parse_branch(orig_branch: &str, cfg: &SavedConfig) -> (b: ParsedBranch)
    ensures
        b@ == decode(orig_branch@, cfg.branch_prefix@, cfg.branch_split@),
{
    proof {
        reveal(decode);
    }
    let raw = to_chars(orig_branch);
    let sep = to_chars(cfg.branch_split.as_str());
    let mut lead = to_chars(cfg.branch_prefix.as_str());
    append_chars(&mut lead, &sep);
    let found = matches_at(&raw, &lead, 0);
    let rest = if found {
        slice_chars(&raw, lead.len(), raw.len())
    } else {
        raw
    };
    assert(rest@ =~= without_lead(orig_branch@, cfg.branch_prefix@, cfg.branch_split@));
    let prefix = if found {
        Some(cfg.branch_prefix.clone())
    } else {
        None
    };
    match find_position(&rest, &sep) {
        Some((i, p)) => {
            let base = slice_chars(&rest, 0, i);
            ParsedBranch { prefix, base: to_text(&base), partx100: Some(p) }
        },
        None => ParsedBranch { prefix, base: to_text(&rest), partx100: None },
    }
}

fn find_position(rest: &Vec<char>, sep: &Vec<char>) -> (found: Option<(usize, u32)>)
    ensures
        match found {
            Some((i, p)) => marked_position(rest@, sep@) == Some((i as int, p)) && i <= rest.len(),
            None => marked_position(rest@, sep@) is None,
        },
{
    let mut marker: Vec<char> = Vec::new();
    append_chars(&mut marker, sep);
    append_chars(&mut marker, &part_tag_chars());
    assert(marker@ =~= position_marker(sep@));
    match find_last(rest, &marker) {
        Some(i) => {
            let end = rest.len();
            let suffix = slice_chars(rest, i + marker.len(), end);
            match read_position(&suffix) {
                Some(p) => Some((i, p)),
                None => None,
            }
        },
        None => None,
    }
}

/// Whether the name of `b` is read back as `b`: its prefix, if it has one, is
/// the configured one, and its name does not begin with the configured
/// prefix by chance if it has none; its position, if it has one, is a whole
/// number of tenths (or the largest position there is), and its base does not
/// itself end in a readable position if it has none.
pub open spec fn reads_back(b: BranchId, prefix: Seq<char>, sep: Seq<char>) -> bool {
    &&& match b.prefix {
        Some(q) => q == prefix,
        None => !has_prefix(full_name(b, sep), prefix + sep),
    }
    &&& match b.position {
        Some(p) => p % 10 == 0 || p == u32::MAX,
        None => marked_position(b.base, sep) is None,
    }
}

/// The same branch with the segment `starts` put before its base: its name
/// is the start name of `b`.
pub open spec fn start_marker_of(b: BranchId, sep: Seq<char>) -> BranchId {
    BranchId { base: starts_tag() + sep + b.base, ..b }
}

proof fn lemma_marker_before_position(base: Seq<char>, sep: Seq<char>, p: u32)
    ensures
        position_of_text(position_text(p)) is Some,
        marked_position(base + position_marker(sep) + position_text(p), sep) == Some(
            (base.len() as int, position_of_text(position_text(p))->0),
        ),
{
    let marker = position_marker(sep);
    let rest = base + marker + position_text(p);
    let at = base.len() as int;
    assert(rest.subrange(at, at + marker.len()) =~= marker);
    lemma_position_text_chars(p);
    lemma_position_text_reads_back(p);
    assert forall|j: int| occurs_at(rest, marker, j) implies j <= at by {
        if j > at {
            let k = j + marker.len() - 1;
            assert(rest.subrange(j, j + marker.len())[marker.len() - 1] == rest[k]);
            assert(marker[marker.len() - 1] == '-');
            assert(rest[k] == position_text(p)[k - at - marker.len()]);
            assert(is_digit(position_text(p)[k - at - marker.len()]) || position_text(p)[k - at
                - marker.len()] == '.');
        }
    }
    lemma_last_index_of(rest, marker, at);
    assert(rest.skip(at + marker.len()) =~= position_text(p));
}

/// Writing a branch and reading its name back gives the same branch exactly
/// when `reads_back` holds of it.
pub proof fn lemma_full_name_reads_back(b: BranchId, prefix: Seq<char>, sep: Seq<char>)
    ensures
        decode(full_name(b, sep), prefix, sep) == b <==> reads_back(b, prefix, sep),
{
    reveal(decode);
    reveal(full_name);
    let raw = full_name(b, sep);
    let lead = prefix + sep;
    let body = b.base + tail_of(b, sep);
    let prefix_fits = match b.prefix {
        Some(q) => q == prefix,
        None => !has_prefix(raw, lead),
    };
    if prefix_fits {
        if b.prefix is Some {
            assert(raw.subrange(0, lead.len() as int) =~= lead);
            assert(raw.skip(lead.len() as int) =~= body);
        } else {
            assert(raw =~= body);
        }
        assert(without_lead(raw, prefix, sep) == body);
        match b.position {
            Some(p) => {
                assert(body =~= b.base + position_marker(sep) + position_text(p));
                lemma_marker_before_position(b.base, sep, p);
                lemma_position_text_reads_back(p);
                assert(body.take(b.base.len() as int) =~= b.base);
            },
            None => {
                assert(body =~= b.base);
            },
        }
    }
}

/// The start name of a branch is the name of the branch with `starts` put
/// before its base, so it is read back as that branch exactly when
/// `reads_back` holds of it.
pub proof fn lemma_start_name_reads_back(b: BranchId, prefix: Seq<char>, sep: Seq<char>)
    ensures
        start_name(b, sep) == full_name(start_marker_of(b, sep), sep),
        decode(start_name(b, sep), prefix, sep) == start_marker_of(b, sep) <==> reads_back(
            start_marker_of(b, sep),
            prefix,
            sep,
        ),
{
    reveal(full_name);
    reveal(start_name);
    assert(start_name(b, sep) =~= full_name(start_marker_of(b, sep), sep));
    lemma_full_name_reads_back(start_marker_of(b, sep), prefix, sep);
}

/// A name in which no position marker occurs stands for a branch without
/// position, whose base is all that follows the prefix.
pub proof fn lemma_decode_without_marker(raw: Seq<char>, prefix: Seq<char>, sep: Seq<char>)
    requires
        forall|j: int| !occurs_at(without_lead(raw, prefix, sep), position_marker(sep), j),
    ensures
        decode(raw, prefix, sep).position is None,
        decode(raw, prefix, sep).base == without_lead(raw, prefix, sep),
{
    reveal(decode);
    lemma_last_index_is_last(without_lead(raw, prefix, sep), position_marker(sep));
}

} // verus!

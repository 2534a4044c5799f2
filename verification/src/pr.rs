//! Pull requests, as far as the branch tools look at them, and how they are
//! read from the answer to a search for them.

use vstd::prelude::*;
use vstd::string::StringExecFns;
use crate::gateway::text_of;
use crate::stack::texts;
use crate::text::{same_chars, to_chars};

verus! {

/// What is known of the pull request of a branch.
#[derive(Debug, PartialEq, Eq)]
pub struct Pr {
    pub closed: bool,
    pub title: String,
    pub branch: String,
    pub url: String,
    pub state: String,
    pub review_decision: Option<String>,
    pub mergeable: String,
    pub auto_merge_request: bool,
    pub test_status: String,
}

/// The mathematical value of a `Pr`.
pub struct PrView {
    pub closed: bool,
    pub title: Seq<char>,
    pub branch: Seq<char>,
    pub url: Seq<char>,
    pub state: Seq<char>,
    pub review_decision: Option<Seq<char>>,
    pub mergeable: Seq<char>,
    pub auto_merge_request: bool,
    pub test_status: Seq<char>,
}

impl View for Pr {
    type V = PrView;

    open spec fn view(&self) -> PrView {
        PrView {
            closed: self.closed,
            title: self.title@,
            branch: self.branch@,
            url: self.url@,
            state: self.state@,
            review_decision: text_of(self.review_decision),
            mergeable: self.mergeable@,
            auto_merge_request: self.auto_merge_request,
            test_status: self.test_status@,
        }
    }
}

impl Clone for Pr {
    fn clone(&self) -> (copy: Self)
        ensures
            copy@ == self@,
    {
        Pr {
            closed: self.closed,
            title: self.title.clone(),
            branch: self.branch.clone(),
            url: self.url.clone(),
            state: self.state.clone(),
            review_decision: match &self.review_decision {
                Some(d) => Some(d.clone()),
                None => None,
            },
            mergeable: self.mergeable.clone(),
            auto_merge_request: self.auto_merge_request,
            test_status: self.test_status.clone(),
        }
    }
}

/// The values of a list of pull requests.
pub open spec fn prs_of(prs: Seq<Pr>) -> Seq<PrView> {
    Seq::new(prs.len(), |i: int| prs[i]@)
}

/// A JSON value. An object holds its members in the order in which they were
/// written; of two members of one name the first is the one that counts.
#[derive(Debug, PartialEq, Eq)]
pub enum Json {
    Null,
    Bool(bool),
    Number(String),
    Text(String),
    List(Vec<Json>),
    Object(Vec<(String, Json)>),
}

/// The first member named `key` among `members`.
pub open spec fn member_of(members: Seq<(String, Json)>, key: Seq<char>) -> Option<Json>
    decreases members.len(),
{
    if members.len() == 0 {
        None
    } else {
        match member_of(members.drop_last(), key) {
            Some(j) => Some(j),
            None => if members.last().0@ == key {
                Some(members.last().1)
            } else {
                None
            },
        }
    }
}

/// The member named `key` of the object `j`; nothing if `j` is no object or
/// has no such member.
pub open spec fn member(j: Json, key: Seq<char>) -> Option<Json> {
    match j {
        Json::Object(members) => member_of(members@, key),
        _ => None,
    }
}

/// The member named `key` of what `j` holds, if `j` holds an object.
pub open spec fn inner(j: Option<Json>, key: Seq<char>) -> Option<Json> {
    match j {
        Some(v) => member(v, key),
        None => None,
    }
}

/// The text that `j` holds, if it holds a text.
pub open spec fn text_in(j: Option<Json>) -> Option<Seq<char>> {
    match j {
        Some(Json::Text(t)) => Some(t@),
        _ => None,
    }
}

/// The truth value that `j` holds, if it holds one.
pub open spec fn flag_in(j: Option<Json>) -> Option<bool> {
    match j {
        Some(Json::Bool(b)) => Some(b),
        _ => None,
    }
}

/// The items that `j` holds, if it holds a list.
pub open spec fn items_in(j: Option<Json>) -> Option<Seq<Json>> {
    match j {
        Some(Json::List(items)) => Some(items@),
        _ => None,
    }
}

/// The state of the checks of the last commit of a pull request: the text
/// `N/A` where the commit has no status; nothing where the answer is not in
/// the form that is expected.
pub open spec fn test_status_of(node: Json) -> Option<Seq<char>> {
    match items_in(inner(member(node, "commits"@), "nodes"@)) {
        Some(commits) => if commits.len() > 0 {
            match inner(member(commits[0], "commit"@), "status"@) {
                Some(Json::Object(status)) => text_in(member_of(status@, "state"@)),
                Some(_) => Some("N/A"@),
                None => None,
            }
        } else {
            None
        },
        None => None,
    }
}

/// The pull request that one node of the answer describes; nothing where
/// the node is not in the form that is expected.
pub open spec fn pr_of_node(node: Json) -> Option<PrView> {
    if flag_in(member(node, "closed"@)) is Some && text_in(member(node, "title"@)) is Some
        && text_in(member(node, "headRefName"@)) is Some && text_in(member(node, "url"@)) is Some
        && text_in(member(node, "state"@)) is Some && member(node, "reviewDecision"@) is Some
        && text_in(member(node, "mergeable"@)) is Some && test_status_of(node) is Some {
        Some(
            PrView {
                closed: flag_in(member(node, "closed"@))->0,
                title: text_in(member(node, "title"@))->0,
                branch: text_in(member(node, "headRefName"@))->0,
                url: text_in(member(node, "url"@))->0,
                state: text_in(member(node, "state"@))->0,
                review_decision: text_in(member(node, "reviewDecision"@)),
                mergeable: text_in(member(node, "mergeable"@))->0,
                auto_merge_request: member(node, "autoMergeRequest"@) is Some,
                test_status: test_status_of(node)->0,
            },
        )
    } else {
        None
    }
}

/// Whether `name` is one of `names`.
pub open spec fn is_among(names: Seq<Seq<char>>, name: Seq<char>) -> bool {
    exists|i: int| 0 <= i < names.len() && names[i] == name
}

/// The pull requests that the edges of an answer describe, as far as their
/// branch is one of `branches`; nothing where an edge is not in the form
/// that is expected.
pub open spec fn prs_of_edges(edges: Seq<Json>, branches: Seq<Seq<char>>) -> Option<Seq<PrView>>
    decreases edges.len(),
{
    if edges.len() == 0 {
        Some(Seq::empty())
    } else {
        match (prs_of_edges(edges.drop_last(), branches), inner(Some(edges.last()), "node"@)) {
            (Some(before), Some(node)) => match pr_of_node(node) {
                Some(pr) => if is_among(branches, pr.branch) {
                    Some(before.push(pr))
                } else {
                    Some(before)
                },
                None => None,
            },
            _ => None,
        }
    }
}

/// The pull requests that the answer to a search describes, as far as
/// their branch is one of `branches`.
pub open spec fn prs_of_response(response: Json, branches: Seq<Seq<char>>) -> Option<Seq<PrView>> {
    match items_in(inner(inner(member(response, "data"@), "search"@), "edges"@)) {
        Some(edges) => prs_of_edges(edges, branches),
        None => None,
    }
}

/// The head of a pull request as the search for it names it: the
/// organisation, a colon, and the branch.
pub fn head_filter(org: &str, branch: &str) -> (head: String)
    ensures
        head@ == org@ + ":"@ + branch@,
{
    let mut head = org.to_owned();
    head.append(":");
    head.append(branch);
    head
}

/// The question that asks for the pull requests of a user in a repository.
pub open spec fn search_text(user: Seq<char>, org: Seq<char>, repo: Seq<char>) -> Seq<char> {
    "{ search(first:100, query: \"is:pr author:"@ + user + " repo:"@ + org + "/"@ + repo
        + "\", type: ISSUE) { edges { node { ... on PullRequest { closed title headRefName url state reviewDecision mergeable autoMergeRequest { enabledAt } commits(last:1) { nodes { commit { status { state } } } } } } } } }"@
}

/// The question that asks for the pull requests of a user in a repository.
pub fn search_query(user: &str, org: &str, repo: &str) -> (query: String)
    ensures
        query@ == search_text(user@, org@, repo@),
{
    let mut query = "{ search(first:100, query: \"is:pr author:".to_owned();
    query.append(user);
    query.append(" repo:");
    query.append(org);
    query.append("/");
    query.append(repo);
    query.append(
        "\", type: ISSUE) { edges { node { ... on PullRequest { closed title headRefName url state reviewDecision mergeable autoMergeRequest { enabledAt } commits(last:1) { nodes { commit { status { state } } } } } } } } }",
    );
    query
}

/// The request that gives a pull request another base.
pub open spec fn change_base_text(new_base: Seq<char>, node_id: Seq<char>) -> Seq<char> {
    "mutation { updatePullRequest(input: {baseRefName: \""@ + new_base + "\", pullRequestId:\""@
        + node_id + "\"}) { clientMutationId } }"@
}

/// The request that gives a pull request another base.
pub fn change_base_query(new_base: &str, node_id: &str) -> (query: String)
    ensures
        query@ == change_base_text(new_base@, node_id@),
{
    let mut query = "mutation { updatePullRequest(input: {baseRefName: \"".to_owned();
    query.append(new_base);
    query.append("\", pullRequestId:\"");
    query.append(node_id);
    query.append("\"}) { clientMutationId } }");
    query
}

fn get<'a>(j: &'a Json, key: &str) -> (found: Option<&'a Json>)
    ensures
        match found {
            Some(v) => member(*j, key@) == Some(*v),
            None => member(*j, key@) is None,
        },
{
    match j {
        Json::Object(members) => {
            let wanted = to_chars(key);
            let mut i: usize = 0;
            assert(members@.take(0) =~= Seq::<(String, Json)>::empty());
            while i < members.len()
                invariant
                    i <= members.len(),
                    wanted@ == key@,
                    member(*j, key@) == member_of(members@, key@),
                    member_of(members@.take(i as int), key@) is None,
                decreases members.len() - i,
            {
                assert(members@.take(i + 1).drop_last() =~= members@.take(i as int));
                assert(members@.take(i + 1).last() == members@[i as int]);
                if same_chars(&to_chars(members[i].0.as_str()), &wanted) {
                    proof {
                        lemma_member_stays(members@, key@, i as int + 1);
                    }
                    return Some(&members[i].1);
                }
                i += 1;
            }
            assert(members@.take(members.len() as int) =~= members@);
            None
        },
        _ => None,
    }
}

proof fn lemma_member_stays(members: Seq<(String, Json)>, key: Seq<char>, n: int)
    requires
        0 <= n <= members.len(),
        member_of(members.take(n), key) is Some,
    ensures
        member_of(members, key) == member_of(members.take(n), key),
    decreases members.len() - n,
{
    if n < members.len() {
        assert(members.drop_last().take(n) =~= members.take(n));
        lemma_member_stays(members.drop_last(), key, n);
    } else {
        assert(members.take(n) =~= members);
    }
}

fn get_in<'a>(j: Option<&'a Json>, key: &str) -> (found: Option<&'a Json>)
    ensures
        match found {
            Some(v) => inner(deref_of(j), key@) == Some(*v),
            None => inner(deref_of(j), key@) is None,
        },
{
    match j {
        Some(v) => get(v, key),
        None => None,
    }
}

/// The value behind an optional reference.
pub open spec fn deref_of(j: Option<&Json>) -> Option<Json> {
    match j {
        Some(v) => Some(*v),
        None => None,
    }
}

fn text_at(j: Option<&Json>) -> (found: Option<String>)
    ensures
        text_of(found) == text_in(deref_of(j)),
{
    match j {
        Some(Json::Text(t)) => Some(t.clone()),
        _ => None,
    }
}

fn flag_at(j: Option<&Json>) -> (found: Option<bool>)
    ensures
        found == flag_in(deref_of(j)),
{
    match j {
        Some(Json::Bool(b)) => Some(*b),
        _ => None,
    }
}

fn items_at<'a>(j: Option<&'a Json>) -> (found: Option<&'a Vec<Json>>)
    ensures
        match found {
            Some(items) => items_in(deref_of(j)) == Some(items@),
            None => items_in(deref_of(j)) is None,
        },
{
    match j {
        Some(Json::List(items)) => Some(items),
        _ => None,
    }
}

fn test_status(node: &Json) -> (status: Option<String>)
    ensures
        text_of(status) == test_status_of(*node),
{
    match items_at(get_in(get(node, "commits"), "nodes")) {
        Some(commits) => {
            if commits.len() > 0 {
                match get_in(get(&commits[0], "commit"), "status") {
                    Some(status) => match status {
                        Json::Object(_) => text_at(get(status, "state")),
                        _ => Some("N/A".to_owned()),
                    },
                    None => None,
                }
            } else {
                None
            }
        },
        None => None,
    }
}

fn pr_from_node(node: &Json) -> (pr: Option<Pr>)
    ensures
        match pr {
            Some(p) => pr_of_node(*node) == Some(p@),
            None => pr_of_node(*node) is None,
        },
{
    let closed = match flag_at(get(node, "closed")) {
        Some(b) => b,
        None => {
            return None;
        },
    };
    let title = match text_at(get(node, "title")) {
        Some(t) => t,
        None => {
            return None;
        },
    };
    let branch = match text_at(get(node, "headRefName")) {
        Some(t) => t,
        None => {
            return None;
        },
    };
    let url = match text_at(get(node, "url")) {
        Some(t) => t,
        None => {
            return None;
        },
    };
    let state = match text_at(get(node, "state")) {
        Some(t) => t,
        None => {
            return None;
        },
    };
    let review = get(node, "reviewDecision");
    if review.is_none() {
        return None;
    }
    let mergeable = match text_at(get(node, "mergeable")) {
        Some(t) => t,
        None => {
            return None;
        },
    };
    let status = match test_status(node) {
        Some(t) => t,
        None => {
            return None;
        },
    };
    Some(
        Pr {
            closed,
            title,
            branch,
            url,
            state,
            review_decision: text_at(review),
            mergeable,
            auto_merge_request: get(node, "autoMergeRequest").is_some(),
            test_status: status,
        },
    )
}

fn among(names: &Vec<String>, name: &String) -> (found: bool)
    ensures
        found == is_among(texts(names@), name@),
{
    let mut i: usize = 0;
    while i < names.len()
        invariant
            i <= names.len(),
            forall|k: int| 0 <= k < i ==> texts(names@)[k] != name@,
        decreases names.len() - i,
    {
        if names[i] == *name {
            assert(texts(names@)[i as int] == name@);
            return true;
        }
        i += 1;
    }
    false
}

/// Reads the pull requests out of the answer to a search for them, and
/// keeps those whose branch is one of `branches`. Nothing comes back if the
/// answer is not in the form that is expected.
pub fn prs_for_branches(response: &Json, branches: &Vec<String>) -> (prs: Option<Vec<Pr>>)
    ensures
        match prs {
            Some(v) => prs_of_response(*response, texts(branches@)) == Some(prs_of(v@)),
            None => prs_of_response(*response, texts(branches@)) is None,
        },
{
    let edges = match items_at(get_in(get_in(get(response, "data"), "search"), "edges")) {
        Some(edges) => edges,
        None => {
            return None;
        },
    };
    let mut prs: Vec<Pr> = Vec::new();
    let mut i: usize = 0;
    proof {
        assert(edges@.take(0) =~= Seq::<Json>::empty());
        assert(prs_of(prs@) =~= Seq::<PrView>::empty());
    }
    while i < edges.len()
        invariant
            i <= edges.len(),
            prs_of_response(*response, texts(branches@)) == prs_of_edges(
                edges@,
                texts(branches@),
            ),
            prs_of_edges(edges@.take(i as int), texts(branches@)) == Some(prs_of(prs@)),
        decreases edges.len() - i,
    {
        proof {
            assert(edges@.take(i + 1).drop_last() =~= edges@.take(i as int));
            assert(edges@.take(i + 1).last() == edges@[i as int]);
        }
        let pr = match get(&edges[i], "node") {
            Some(node) => pr_from_node(node),
            None => None,
        };
        match pr {
            Some(pr) => {
                if among(branches, &pr.branch) {
                    let ghost before = prs_of(prs@);
                    let ghost added = pr@;
                    prs.push(pr);
                    assert(prs_of(prs@) =~= before.push(added));
                }
            },
            None => {
                proof {
                    assert(prs_of_edges(edges@.take(i + 1), texts(branches@)) is None);
                    lemma_none_stays(edges@, texts(branches@), i as int + 1);
                }
                return None;
            },
        }
        i += 1;
    }
    assert(edges@.take(edges.len() as int) =~= edges@);
    Some(prs)
}

proof fn lemma_none_stays(edges: Seq<Json>, branches: Seq<Seq<char>>, n: int)
    requires
        0 <= n <= edges.len(),
        prs_of_edges(edges.take(n), branches) is None,
    ensures
        prs_of_edges(edges, branches) is None,
    decreases edges.len() - n,
{
    if n < edges.len() {
        assert(edges.drop_last().take(n) =~= edges.take(n));
        lemma_none_stays(edges.drop_last(), branches, n);
    } else {
        assert(edges.take(n) =~= edges);
    }
}

} // verus!

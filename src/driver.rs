//! The decisions of a filtering pass: which messages to ask for, which
//! filter to try next on a message, and what to do with the query tag.
//! The caller talks to the mailbox and carries the decisions out.
use vstd::prelude::*;

use crate::error::FilterError;
use crate::filter::{filter_name, match_outcome, Filter};
use crate::message::{reports, Fault, MessageFacts, Verdict};
use crate::operations::ActionModel;
use crate::text::chars_of;
use crate::value::texts_of;

verus! {

/// Whether `c` has the Unicode White_Space property.
pub open spec fn is_white_space(c: char) -> bool {
    ('\u{9}' <= c && c <= '\u{d}') || c == '\u{20}' || c == '\u{85}' || c == '\u{a0}'
        || c == '\u{1680}' || ('\u{2000}' <= c && c <= '\u{200a}') || c == '\u{2028}'
        || c == '\u{2029}' || c == '\u{202f}' || c == '\u{205f}' || c == '\u{3000}'
}

/// Characters that may not appear in a query tag: any Unicode whitespace,
/// and the quotes, which the mailbox's query language would interpret.
pub open spec fn unsafe_in_query(c: char) -> bool {
    is_white_space(c) || c == '"' || c == '\''
}

/// Whether `c` may not appear in a query tag.
pub fn unsafe_char(c: char) -> (r: bool)
    ensures
        r == unsafe_in_query(c),
{
    ('\u{9}' <= c && c <= '\u{d}') || c == '\u{20}' || c == '\u{85}' || c == '\u{a0}'
        || c == '\u{1680}' || ('\u{2000}' <= c && c <= '\u{200a}') || c == '\u{2028}'
        || c == '\u{2029}' || c == '\u{202f}' || c == '\u{205f}' || c == '\u{3000}' || c == '"'
        || c == '\''
}

/// A tag that can be put in a query as it is.
pub open spec fn query_tag_ok(tag: Seq<char>) -> bool {
    tag.len() > 0 && forall|i: int| 0 <= i < tag.len() ==> !unsafe_in_query(#[trigger] tag[i])
}

/// The query for the messages carrying `tag`, or `UnsupportedQuery` when
/// the tag is empty or holds whitespace (any Unicode whitespace) or quotes.
pub fn validate_query_tag(tag: &str) -> (r: Result<String, FilterError>)
    ensures
        r is Ok <==> query_tag_ok(tag@),
        r is Ok ==> r->Ok_0@ == "tag:"@ + tag@,
        r is Err ==> r->Err_0 is UnsupportedQuery,
{
    let cs = chars_of(tag);
    if cs.len() == 0 {
        return Err(FilterError::UnsupportedQuery("Tag to query can't be empty".to_string()));
    }
    let mut i: usize = 0;
    while i < cs.len()
        invariant
            i <= cs.len(),
            cs@ == tag@,
            forall|j: int| 0 <= j < i ==> !unsafe_in_query(#[trigger] tag@[j]),
        decreases cs.len() - i,
    {
        if unsafe_char(cs[i]) {
            assert(unsafe_in_query(tag@[i as int]));
            return Err(
                FilterError::UnsupportedQuery(
                    "Query tags can't contain whitespace or quotes".to_string(),
                ),
            );
        }
        i = i + 1;
    }
    Ok(String::from_str("tag:").concat(tag))
}

/// Where a pass over one message stands.
pub struct PassState {
    /// How many filters there are.
    pub filters: nat,
    /// The filter to try next.
    pub next: nat,
    /// How many filters matched and were applied so far.
    pub matches: nat,
    /// Whether an applied filter deleted the message.
    pub deleted: bool,
}

/// The pass of all filters, in order, over one message: each filter is
/// tried and, if it matches, applied; a filter that deletes the message
/// ends the pass; a message that survives loses the query tag at the end.
pub struct MessagePass {
    filters: usize,
    next: usize,
    matches: usize,
    deleted: bool,
}

impl View for MessagePass {
    type V = PassState;

    closed spec fn view(&self) -> PassState {
        PassState {
            filters: self.filters as nat,
            next: self.next as nat,
            matches: self.matches as nat,
            deleted: self.deleted,
        }
    }
}

/// Whether the pass is over.
pub open spec fn pass_done(s: PassState) -> bool {
    s.deleted || s.next >= s.filters
}

impl MessagePass {
    #[verifier::type_invariant]
    spec fn counts_fit(&self) -> bool {
        self.matches <= self.next <= self.filters
    }

    /// A pass over `filters` filters, none tried yet.
    pub fn new(filters: usize) -> (r: MessagePass)
        ensures
            r@ == (PassState { filters: filters as nat, next: 0, matches: 0, deleted: false }),
    {
        MessagePass { filters, next: 0, matches: 0, deleted: false }
    }

    /// The filter to try next, or nothing when the pass is over.
    pub fn next_filter(&self) -> (r: Option<usize>)
        ensures
            r == if pass_done(self@) {
                None::<usize>
            } else {
                Some(self@.next as usize)
            },
    {
        if self.deleted || self.next >= self.filters {
            None
        } else {
            Some(self.next)
        }
    }

    /// Records how the filter just tried went: whether it matched (and was
    /// applied), and whether applying it deleted the message.
    pub fn record(&mut self, matched: bool, deleted: bool)
        requires
            !pass_done(old(self)@),
            deleted ==> matched,
        ensures
            final(self)@ == (PassState {
                filters: old(self)@.filters,
                next: old(self)@.next + 1,
                matches: old(self)@.matches + if matched {
                    1nat
                } else {
                    0nat
                },
                deleted,
            }),
    {
        proof {
            use_type_invariant(&*self);
        }
        let mut s = MessagePass { filters: 0, next: 0, matches: 0, deleted: false };
        std::mem::swap(self, &mut s);
        let matches = if matched {
            s.matches + 1
        } else {
            s.matches
        };
        *self = MessagePass { filters: s.filters, next: s.next + 1, matches, deleted };
    }

    /// How many filters matched so far.
    pub fn matches(&self) -> (r: usize)
        ensures
            r == self@.matches,
    {
        self.matches
    }

    /// Whether the query tag is to be removed from the message once the
    /// pass is over: it is, unless the message was deleted.
    pub fn clears_tag(&self) -> (r: bool)
        ensures
            r == !self@.deleted,
    {
        !self.deleted
    }
}

/// What a dry run over one message reports.
pub enum DryReport {
    /// One line per matching filter, in filter order.
    Lines(Seq<Seq<char>>),
    /// A filter that was tried had not been compiled.
    Uncompiled,
    /// A field that was tried could not be read.
    Failed(Fault),
}

/// The line a dry run writes for message `id` matched by the filter named
/// `name`.
pub open spec fn dry_line(id: Seq<char>, name: Seq<char>) -> Seq<char> {
    id + ": "@ + name
}

/// Trying filters `fs`, in order, on message `m` (id `id`) without
/// applying any: stops at the first that cannot be tried.
pub open spec fn dry_report(fs: Seq<Filter>, id: Seq<char>, m: MessageFacts) -> DryReport
    decreases fs.len(),
{
    if fs.len() == 0 {
        DryReport::Lines(seq![])
    } else {
        match dry_report(fs.drop_last(), id, m) {
            DryReport::Lines(ls) => match match_outcome(fs.last(), m) {
                None => DryReport::Uncompiled,
                Some(Verdict::Yes) => DryReport::Lines(ls.push(dry_line(id, filter_name(fs.last())))),
                Some(Verdict::No) => DryReport::Lines(ls),
                Some(Verdict::Fault(f)) => DryReport::Failed(f),
            },
            other => other,
        }
    }
}

proof fn lemma_dry_report_settled(fs: Seq<Filter>, id: Seq<char>, m: MessageFacts, j: int)
    requires
        0 <= j <= fs.len(),
        !(dry_report(fs.take(j), id, m) is Lines),
    ensures
        dry_report(fs, id, m) == dry_report(fs.take(j), id, m),
    decreases fs.len() - j,
{
    if j < fs.len() {
        assert(fs.take(j + 1).drop_last() =~= fs.take(j));
        lemma_dry_report_settled(fs, id, m, j + 1);
    } else {
        assert(fs.take(j) =~= fs);
    }
}

/// Tries every filter on one message without applying any, and reports a
/// line `"<id>: <filter name>"` for each that matches. The number of
/// matches is the number of lines.
pub fn dry_run_message(filters: &Vec<Filter>, id: &String, m: &MessageFacts) -> (r: Result<
    Vec<String>,
    FilterError,
>)
    ensures
        match dry_report(filters@, id@, *m) {
            DryReport::Lines(ls) => r is Ok && texts_of(r->Ok_0@) == ls,
            DryReport::Uncompiled => r is Err && r->Err_0 is RegexUncompiled,
            DryReport::Failed(f) => r is Err && reports(r->Err_0, f),
        },
{
    let ghost fs = filters@;
    let mut lines: Vec<String> = Vec::new();
    let mut i: usize = 0;
    assert(fs.take(0) =~= Seq::<Filter>::empty());
    assert(texts_of(lines@) =~= Seq::<Seq<char>>::empty());
    while i < filters.len()
        invariant
            i <= filters.len(),
            fs == filters@,
            dry_report(fs.take(i as int), id@, *m) == DryReport::Lines(texts_of(lines@)),
        decreases filters.len() - i,
    {
        let f = &filters[i];
        proof {
            assert(fs.take(i + 1).drop_last() =~= fs.take(i as int));
            assert(fs.take(i + 1).last() == *f);
        }
        match f.is_match(m) {
            Err(e) => {
                proof {
                    lemma_dry_report_settled(fs, id@, *m, i + 1);
                }
                return Err(e);
            },
            Ok(true) => {
                let line = id.clone().concat(": ").concat(f.name().as_str());
                let ghost before = lines@;
                lines.push(line);
                assert(texts_of(lines@) =~= texts_of(before).push(dry_line(id@, filter_name(*f))));
            },
            Ok(false) => {},
        }
        i = i + 1;
    }
    assert(fs.take(i as int) =~= fs);
    Ok(lines)
}

/// One message for a dry run: its id and what was read of it.
#[derive(Debug)]
pub struct DryMessage {
    pub id: String,
    pub facts: MessageFacts,
}

/// A dry run over messages `ms`, in order: the lines of each, one after
/// the other, up to the first message that cannot be tried.
pub open spec fn dry_over(fs: Seq<Filter>, ms: Seq<DryMessage>) -> DryReport
    decreases ms.len(),
{
    if ms.len() == 0 {
        DryReport::Lines(seq![])
    } else {
        match dry_over(fs, ms.drop_last()) {
            DryReport::Lines(ls) => match dry_report(fs, ms.last().id@, ms.last().facts) {
                DryReport::Lines(more) => DryReport::Lines(ls + more),
                other => other,
            },
            other => other,
        }
    }
}

proof fn lemma_dry_over_settled(fs: Seq<Filter>, ms: Seq<DryMessage>, j: int)
    requires
        0 <= j <= ms.len(),
        !(dry_over(fs, ms.take(j)) is Lines),
    ensures
        dry_over(fs, ms) == dry_over(fs, ms.take(j)),
    decreases ms.len() - j,
{
    if j < ms.len() {
        assert(ms.take(j + 1).drop_last() =~= ms.take(j));
        lemma_dry_over_settled(fs, ms, j + 1);
    } else {
        assert(ms.take(j) =~= ms);
    }
}

/// Tries every filter on every message without applying any: how many
/// (message, filter) pairs match, and a line `"<id>: <filter name>"` for
/// each. It changes nothing, so on the same messages it reports the same.
/// No messages, or no filters, report no matches.
pub fn dry_run(filters: &Vec<Filter>, messages: &Vec<DryMessage>) -> (r: Result<
    (usize, Vec<String>),
    FilterError,
>)
    ensures
        match dry_over(filters@, messages@) {
            DryReport::Lines(ls) => r is Ok && texts_of(r->Ok_0.1@) == ls && r->Ok_0.0 == ls.len(),
            DryReport::Uncompiled => r is Err && r->Err_0 is RegexUncompiled,
            DryReport::Failed(f) => r is Err && reports(r->Err_0, f),
        },
{
    let ghost ms = messages@;
    let mut lines: Vec<String> = Vec::new();
    let mut i: usize = 0;
    assert(texts_of(lines@) =~= Seq::<Seq<char>>::empty());
    while i < messages.len()
        invariant
            i <= messages.len(),
            ms == messages@,
            dry_over(filters@, ms.take(i as int)) == DryReport::Lines(texts_of(lines@)),
        decreases messages.len() - i,
    {
        let msg = &messages[i];
        proof {
            assert(ms.take(i + 1).drop_last() =~= ms.take(i as int));
            assert(ms.take(i + 1).last() == *msg);
        }
        match dry_run_message(filters, &msg.id, &msg.facts) {
            Err(e) => {
                proof {
                    lemma_dry_over_settled(filters@, ms, i + 1);
                }
                return Err(e);
            },
            Ok(more) => {
                let ghost before = lines@;
                let mut more = more;
                let ghost added = more@;
                lines.append(&mut more);
                assert(texts_of(lines@) =~= texts_of(before) + texts_of(added));
            },
        }
        i = i + 1;
    }
    assert(ms.take(i as int) =~= ms);
    let n = lines.len();
    Ok((n, lines))
}

/// The tags a message has after the tag changes of `plan`, from `tags`.
pub open spec fn tags_after(tags: Set<Seq<char>>, plan: Seq<ActionModel>) -> Set<Seq<char>>
    decreases plan.len(),
{
    if plan.len() == 0 {
        tags
    } else {
        let t = tags_after(tags, plan.drop_last());
        match plan.last() {
            ActionModel::RemoveTag(x) => t.remove(x),
            ActionModel::RemoveAllTags => Set::empty(),
            ActionModel::AddTag(x) => t.insert(x),
            _ => t,
        }
    }
}

/// The tags of a message that a pass applied `plans` to, in order, and did
/// not delete: the plans' changes, then the query tag removed.
pub open spec fn tags_after_pass(tags: Set<Seq<char>>, plans: Seq<Seq<ActionModel>>, query: Seq<char>) -> Set<
    Seq<char>,
>
    decreases plans.len(),
{
    if plans.len() == 0 {
        tags.remove(query)
    } else {
        tags_after_pass(tags_after(tags, plans[0]), plans.drop_first(), query)
    }
}

/// After a pass, no message that survives it carries the query tag, even
/// where a filter added it again; so the same query selects none of them,
/// and a dry run over what it selects reports no matches.
pub proof fn lemma_pass_clears_query(
    tags: Seq<Set<Seq<char>>>,
    plans: Seq<Seq<Seq<ActionModel>>>,
    query: Seq<char>,
    fs: Seq<Filter>,
)
    requires
        plans.len() == tags.len(),
    ensures
        forall|i: int|
            0 <= i < tags.len() ==> !(#[trigger] tags_after_pass(tags[i], plans[i], query)).contains(
                query,
            ),
        tags.map(|i: int, t: Set<Seq<char>>| tags_after_pass(t, plans[i], query)).filter(
            |t: Set<Seq<char>>| t.contains(query),
        ).len() == 0,
        dry_over(fs, Seq::<DryMessage>::empty()) == DryReport::Lines(Seq::<Seq<char>>::empty()),
{
    assert forall|i: int| 0 <= i < tags.len() implies !(#[trigger] tags_after_pass(tags[i], plans[i], query)).contains(query) by {
        lemma_tags_after_pass_lacks(tags[i], plans[i], query);
    }
    let after = tags.map(|i: int, t: Set<Seq<char>>| tags_after_pass(t, plans[i], query));
    let pred = |t: Set<Seq<char>>| t.contains(query);
    assert forall|k: int| 0 <= k < after.len() implies !pred(#[trigger] after[k]) by {
        assert(after[k] == tags_after_pass(tags[k], plans[k], query));
    }
    assert(after.all(|x: Set<Seq<char>>| !pred(x)));
    after.lemma_all_neg_filter_empty(pred);
}

proof fn lemma_tags_after_pass_lacks(tags: Set<Seq<char>>, plans: Seq<Seq<ActionModel>>, query: Seq<char>)
    ensures
        !tags_after_pass(tags, plans, query).contains(query),
    decreases plans.len(),
{
    if plans.len() > 0 {
        lemma_tags_after_pass_lacks(tags_after(tags, plans[0]), plans.drop_first(), query);
    }
}

} // verus!

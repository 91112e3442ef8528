//! Filters: named sets of rules, their compilation into regular
//! expressions, and matching them against a message.
use vstd::prelude::*;

use crate::error::FilterError;
use crate::message::{
    any_match, field_matches, field_verdict, gives, is_mime_key, memo_ok, reports, resolve,
    MessageFacts, Resolved, Verdict,
};
use crate::text::same_text;
use crate::pattern::pattern_matches;
use crate::operations::{actions_of, argv_opt, plan_of, value_opt, Action};
use crate::mime::MimeMessage;
use crate::operations::Operations;
use crate::pattern::{pattern_valid, Pattern};
use crate::value::{Rule, Value, ValueModel};

verus! {

/// What makes a rule set impossible to compile.
pub enum Flaw {
    /// A field holds a flag instead of patterns.
    BadValue,
    /// A pattern is no regular expression.
    BadPattern,
}

/// The patterns a rule field stands for.
pub open spec fn patterns_of(v: ValueModel) -> Seq<Seq<char>> {
    match v {
        ValueModel::Single(p) => seq![p],
        ValueModel::Multiple(ps) => ps,
        ValueModel::Bool(_) => seq![],
    }
}

pub open spec fn value_flaw(v: ValueModel) -> Option<Flaw> {
    match v {
        ValueModel::Bool(_) => Some(Flaw::BadValue),
        _ => if forall|i: int| 0 <= i < patterns_of(v).len() ==> pattern_valid(#[trigger] patterns_of(v)[i]) {
            None
        } else {
            Some(Flaw::BadPattern)
        },
    }
}

/// The first flaw among a rule's fields, in order.
pub open spec fn fields_flaw(fs: Seq<(Seq<char>, ValueModel)>) -> Option<Flaw>
    decreases fs.len(),
{
    if fs.len() == 0 {
        None
    } else {
        match fields_flaw(fs.drop_last()) {
            Some(f) => Some(f),
            None => value_flaw(fs.last().1),
        }
    }
}

/// The first flaw among the rules, in order.
pub open spec fn rules_flaw(rs: Seq<Seq<(Seq<char>, ValueModel)>>) -> Option<Flaw>
    decreases rs.len(),
{
    if rs.len() == 0 {
        None
    } else {
        match rules_flaw(rs.drop_last()) {
            Some(f) => Some(f),
            None => fields_flaw(rs.last()),
        }
    }
}

pub open spec fn rules_view(rs: Seq<Rule>) -> Seq<Seq<(Seq<char>, ValueModel)>> {
    rs.map_values(|r: Rule| r@)
}

/// A compiled rule field: its key and its patterns' sources.
pub type FieldModel = (Seq<char>, Seq<Seq<char>>);

pub open spec fn compile_fields(fs: Seq<(Seq<char>, ValueModel)>) -> Seq<FieldModel> {
    fs.map_values(|f: (Seq<char>, ValueModel)| (f.0, patterns_of(f.1)))
}

/// What compiling rules yields, rule by rule.
pub open spec fn compile_rules(rs: Seq<Seq<(Seq<char>, ValueModel)>>) -> Seq<Seq<FieldModel>> {
    rs.map_values(|r: Seq<(Seq<char>, ValueModel)>| compile_fields(r))
}

pub open spec fn sources_of(ps: Seq<Pattern>) -> Seq<Seq<char>> {
    ps.map_values(|p: Pattern| p@)
}

/// A rule field with its patterns compiled.
#[derive(Debug)]
pub struct CompiledField {
    key: String,
    patterns: Vec<Pattern>,
}

impl View for CompiledField {
    type V = FieldModel;

    closed spec fn view(&self) -> FieldModel {
        (self.key@, sources_of(self.patterns@))
    }
}

pub open spec fn compiled_rule_view(r: Seq<CompiledField>) -> Seq<FieldModel> {
    r.map_values(|f: CompiledField| f@)
}

/// A named set of rules and the operations to apply to messages that any
/// of the rules matches.
#[derive(Debug)]
pub struct Filter {
    /// The name set explicitly; without one, a name is derived from the rules.
    pub name: Option<String>,
    /// What the filter is for, in words.
    pub desc: Option<String>,
    /// The rules; the filter matches a message when any of them does, and a
    /// rule does when all of its fields do.
    pub rules: Vec<Rule>,
    /// The operations applied to matching messages.
    pub op: Operations,
    /// The compiled rules, index-aligned with `rules` once `compile` ran.
    pub re: Vec<Vec<CompiledField>>,
}

/// Compiles the patterns of one rule field.
fn compile_value(v: &Value) -> (r: Result<Vec<Pattern>, FilterError>)
    ensures
        r is Ok <==> value_flaw(v@) is None,
        r is Ok ==> sources_of(r->Ok_0@) == patterns_of(v@),
        r is Err ==> (r->Err_0 is UnsupportedValue <==> value_flaw(v@) == Some(Flaw::BadValue)),
        r is Err ==> (r->Err_0 is RegexError <==> value_flaw(v@) == Some(Flaw::BadPattern)),
{
    match v {
        Value::Bool(_) => Err(FilterError::UnsupportedValue("Not a regular expression".to_string())),
        Value::Single(p) => match Pattern::compile(p) {
            Ok(c) => {
                let mut out: Vec<Pattern> = Vec::new();
                out.push(c);
                assert(sources_of(out@) =~= patterns_of(v@));
                Ok(out)
            },
            Err(e) => {
                assert(!pattern_valid(patterns_of(v@)[0]));
                Err(e)
            },
        },
        Value::Multiple(ps) => {
            let mut out: Vec<Pattern> = Vec::new();
            let mut i: usize = 0;
            while i < ps.len()
                invariant
                    i <= ps.len(),
                    patterns_of(v@) == crate::value::texts_of(ps@),
                    sources_of(out@) =~= patterns_of(v@).take(i as int),
                    forall|j: int| 0 <= j < i ==> pattern_valid(#[trigger] patterns_of(v@)[j]),
                decreases ps.len() - i,
            {
                match Pattern::compile(&ps[i]) {
                    Ok(c) => {
                        let ghost before = out@;
                        out.push(c);
                        assert(sources_of(out@) =~= sources_of(before).push(ps@[i as int]@));
                    },
                    Err(e) => {
                        assert(!pattern_valid(patterns_of(v@)[i as int]));
                        return Err(e);
                    },
                }
                i = i + 1;
            }
            assert(patterns_of(v@).take(i as int) =~= patterns_of(v@));
            Ok(out)
        },
    }
}

impl Filter {
    /// A filter without name, description, rules or operations.
    pub fn new() -> (r: Filter)
        ensures
            r.name is None,
            r.desc is None,
            r.rules@.len() == 0,
            r.op.rm is None && r.op.add is None && r.op.run is None && r.op.del is None,
            r.compiled().len() == 0,
    {
        Filter {
            name: None,
            desc: None,
            rules: Vec::new(),
            op: Operations::default(),
            re: Vec::new(),
        }
    }

    /// The compiled rules, as keys and pattern sources.
    pub open spec fn compiled(&self) -> Seq<Seq<FieldModel>> {
        self.re@.map_values(|r: Vec<CompiledField>| compiled_rule_view(r@))
    }

    /// The explicit name, or else one derived from the rules (see
    /// `naming`). Derived names are not written back to the filter.
    pub fn name(&self) -> (r: String)
        ensures
            r@ == match self.name {
                Some(n) => n@,
                None => crate::naming::derived_name(rules_view(self.rules@)),
            },
    {
        match &self.name {
            Some(n) => n.clone(),
            None => crate::naming::derive_name(&self.rules),
        }
    }

    /// Tries the filter on message `m`, whose file is `file` and id `id`:
    /// the steps that applying its operations takes when it matches,
    /// nothing when it does not.
    pub fn plan_if_match(&self, m: &MessageFacts, file: &String, id: &String) -> (r: Result<
        Option<Vec<Action>>,
        FilterError,
    >)
        ensures
            match match_outcome(*self, *m) {
                None => r is Err && r->Err_0 is RegexUncompiled,
                Some(Verdict::Yes) => r is Ok && r->Ok_0 is Some && actions_of(r->Ok_0->Some_0@)
                    == filter_plan(*self, file@, id@),
                Some(Verdict::No) => r is Ok && r->Ok_0 is None,
                Some(Verdict::Fault(f)) => r is Err && reports(r->Err_0, f),
            },
    {
        match self.is_match(m) {
            Err(e) => Err(e),
            Ok(false) => Ok(None),
            Ok(true) => {
                let name = self.name();
                Ok(Some(self.op.plan(file, id, &name)))
            },
        }
    }

    /// What must be read of a message to try this compiled filter on it.
    pub fn wants(&self) -> (r: Wants)
        ensures
            wants_keys(r, keys_of(self.compiled())),
    {
        let ghost rs = self.compiled();
        let ghost mut seen: Seq<Seq<char>> = seq![];
        let mut w = Wants { headers: Vec::new(), thread_tags: false, content: false };
        assert(crate::value::texts_of(w.headers@) =~= Seq::<Seq<char>>::empty());
        let mut i: usize = 0;
        while i < self.re.len()
            invariant
                i <= self.re.len(),
                rs == self.compiled(),
                seen == keys_of(rs.take(i as int)),
                wants_keys(w, seen),
            decreases self.re.len() - i,
        {
            let rule = &self.re[i];
            let ghost ks = rs[i as int].map_values(|f: FieldModel| f.0);
            assert(rs[i as int] == compiled_rule_view(rule@));
            let mut j: usize = 0;
            while j < rule.len()
                invariant
                    j <= rule.len(),
                    i < self.re.len(),
                    rs == self.compiled(),
                    ks == rs[i as int].map_values(|f: FieldModel| f.0),
                    rs[i as int] == compiled_rule_view(rule@),
                    seen == keys_of(rs.take(i as int)) + ks.take(j as int),
                    wants_keys(w, seen),
                decreases rule.len() - j,
            {
                let k = &rule[j].key;
                assert(ks[j as int] == k@);
                let ghost old_seen = seen;
                proof {
                    seen = seen.push(k@);
                    assert(ks.take(j + 1) =~= ks.take(j as int).push(k@));
                    assert(seen =~= keys_of(rs.take(i as int)) + ks.take(j + 1));
                    assert(forall|x: Seq<char>| seen.contains(x) <==> (old_seen.contains(x) || x == k@)) by {
                        assert forall|x: Seq<char>| seen.contains(x) implies (old_seen.contains(x) || x == k@) by {
                            let a = choose|a: int| 0 <= a < seen.len() && seen[a] == x;
                            if a < old_seen.len() {
                                assert(old_seen[a] == x);
                            }
                        }
                        assert forall|x: Seq<char>| old_seen.contains(x) implies seen.contains(x) by {
                            let a = choose|a: int| 0 <= a < old_seen.len() && old_seen[a] == x;
                            assert(seen[a] == x);
                        }
                        assert(seen[seen.len() - 1] == k@);
                    }
                }
                if same_text(k.as_str(), "@thread-tags") {
                    w.thread_tags = true;
                }
                if same_text(k.as_str(), "@attachment") || same_text(k.as_str(), "@body")
                    || same_text(k.as_str(), "@attachment-body") {
                    w.content = true;
                    assert(is_mime_key(seen[seen.len() - 1]));
                }
                let virt = crate::text::starts_with(k.as_str(), "@");
                proof {
                    reveal_strlit("@");
                    if virt {
                        assert(k@.take(1)[0] == '@');
                    } else if is_virtual(k@) {
                        assert(k@.take(1) =~= "@"@);
                    }
                }
                if !virt {
                    let ghost before = w.headers@;
                    w.headers.push(k.clone());
                    assert(crate::value::texts_of(w.headers@) =~= crate::value::texts_of(before).push(k@));
                    assert forall|x: Seq<char>| #[trigger] texts_of_contains(w.headers@, x) <==> (texts_of_contains(before, x) || x == k@) by {
                        let t = crate::value::texts_of(w.headers@);
                        if t.contains(x) {
                            let a = choose|a: int| 0 <= a < t.len() && t[a] == x;
                            if a < before.len() {
                                assert(crate::value::texts_of(before)[a] == x);
                            }
                        }
                        if texts_of_contains(before, x) {
                            let a = choose|a: int| 0 <= a < before.len() && crate::value::texts_of(before)[a] == x;
                            assert(t[a] == x);
                        }
                        assert(t[t.len() - 1] == k@);
                    }
                }
                proof {
                    assert forall|x: int| 0 <= x < seen.len() && is_mime_key(#[trigger] seen[x]) implies w.content by {
                        if x < old_seen.len() {
                            assert(old_seen[x] == seen[x]);
                        }
                    }
                    if w.content {
                        if !(exists|x: int| 0 <= x < seen.len() && is_mime_key(#[trigger] seen[x])) {
                            let x = choose|x: int| 0 <= x < old_seen.len() && is_mime_key(#[trigger] old_seen[x]);
                            assert(seen[x] == old_seen[x]);
                        }
                    }
                }
                j = j + 1;
            }
            proof {
                assert(ks.take(j as int) =~= ks);
                assert(rs.take(i + 1).drop_last() =~= rs.take(i as int));
                assert(rs.take(i + 1).last() == rs[i as int]);
            }
            i = i + 1;
        }
        assert(rs.take(i as int) =~= rs);
        w
    }

    /// Gives the filter an explicit name.
    pub fn set_name(&mut self, name: &str)
        ensures
            final(self).name is Some,
            final(self).name->Some_0@ == name@,
            final(self).rules == old(self).rules,
            final(self).re == old(self).re,
            final(self).desc == old(self).desc,
            final(self).op == old(self).op,
    {
        self.name = Some(name.to_string());
    }

    /// Compiles every pattern of every rule, so that the filter can be
    /// matched. Fails, with nothing compiled, on the first field (in rule
    /// order, then key order) that holds a flag or a pattern that is no
    /// regular expression.
    pub fn compile(self) -> (r: Result<Filter, FilterError>)
        ensures
            r is Ok <==> rules_flaw(rules_view(self.rules@)) is None,
            r is Ok ==> r->Ok_0.compiled() == compile_rules(rules_view(self.rules@)),
            r is Ok ==> r->Ok_0.rules == self.rules && r->Ok_0.name == self.name
                && r->Ok_0.desc == self.desc && r->Ok_0.op == self.op,
            r is Err ==> (r->Err_0 is UnsupportedValue <==> rules_flaw(rules_view(self.rules@))
                == Some(Flaw::BadValue)),
            r is Err ==> (r->Err_0 is RegexError <==> rules_flaw(rules_view(self.rules@)) == Some(
                Flaw::BadPattern,
            )),
    {
        let ghost rs = rules_view(self.rules@);
        let mut compiled: Vec<Vec<CompiledField>> = Vec::new();
        let mut i: usize = 0;
        while i < self.rules.len()
            invariant
                i <= self.rules.len(),
                rs == rules_view(self.rules@),
                rules_flaw(rs.take(i as int)) is None,
                compiled@.map_values(|r: Vec<CompiledField>| compiled_rule_view(r@)) =~= compile_rules(
                    rs.take(i as int),
                ),
            decreases self.rules.len() - i,
        {
            let fields = self.rules[i].fields();
            let ghost fs = rs[i as int];
            assert(fs == self.rules@[i as int]@);
            let mut cr: Vec<CompiledField> = Vec::new();
            let mut j: usize = 0;
            while j < fields.len()
                invariant
                    j <= fields.len(),
                    i < self.rules.len(),
                    rs == rules_view(self.rules@),
                    fs == rs[i as int],
                    rules_flaw(rs.take(i as int)) is None,
                    fields@.map_values(|f: crate::value::Field| f@) == fs,
                    fields_flaw(fs.take(j as int)) is None,
                    compiled_rule_view(cr@) =~= compile_fields(fs.take(j as int)),
                decreases fields.len() - j,
            {
                let f = &fields[j];
                assert(fs.take(j + 1).drop_last() =~= fs.take(j as int));
                assert(fs.take(j + 1).last() == f@);
                match compile_value(&f.value) {
                    Ok(ps) => {
                        let ghost before = cr@;
                        cr.push(CompiledField { key: f.key.clone(), patterns: ps });
                        assert(compiled_rule_view(cr@) =~= compiled_rule_view(before).push(
                            (f.key@, patterns_of(f.value@)),
                        ));
                        assert(compile_fields(fs.take(j + 1)) =~= compile_fields(fs.take(j as int)).push(
                            (f.key@, patterns_of(f.value@)),
                        ));
                    },
                    Err(e) => {
                        proof {
                            assert(fields_flaw(fs.take(j + 1)) == value_flaw(f.value@));
                            lemma_fields_flaw_extends(fs, j as int + 1);
                            assert(rs.take(i as int + 1).drop_last() =~= rs.take(i as int));
                            lemma_rules_flaw_extends(rs, i as int + 1);
                            assert(rs.take(i as int + 1).last() == fs);
                        }
                        return Err(e);
                    },
                }
                j = j + 1;
            }
            proof {
                assert(fs.take(j as int) =~= fs);
                assert(rs.take(i + 1).drop_last() =~= rs.take(i as int));
                assert(rs.take(i + 1).last() == fs);
            }
            let ghost before = compiled@;
            compiled.push(cr);
            assert(compiled@.map_values(|r: Vec<CompiledField>| compiled_rule_view(r@)) =~= before.map_values(
                |r: Vec<CompiledField>| compiled_rule_view(r@),
            ).push(compile_fields(fs)));
            assert(compile_rules(rs.take(i + 1)) =~= compile_rules(rs.take(i as int)).push(
                compile_fields(fs),
            ));
            i = i + 1;
        }
        assert(rs.take(i as int) =~= rs);
        Ok(Filter { name: self.name, desc: self.desc, rules: self.rules, op: self.op, re: compiled })
    }

    /// Whether any rule of this compiled filter matches message `m`. Fails
    /// when the filter was not compiled since its rules were set, and when
    /// a field that is tried cannot be read.
    pub fn is_match(&self, m: &MessageFacts) -> (r: Result<bool, FilterError>)
        ensures
            self.re.len() != self.rules.len() ==> r is Err && r->Err_0 is RegexUncompiled,
            self.re.len() == self.rules.len() ==> gives(r, filter_verdict(self.compiled(), *m)),
    {
        if self.re.len() != self.rules.len() {
            return Err(
                FilterError::RegexUncompiled("Filters need to be compiled before tested".to_string()),
            );
        }
        let ghost rs = self.compiled();
        let mut memo: Option<MimeMessage> = None;
        let mut i: usize = 0;
        while i < self.re.len()
            invariant
                i <= self.re.len(),
                self.re.len() == self.rules.len(),
                rs == self.compiled(),
                filter_verdict(rs.take(i as int), *m) is No,
                memo_ok(memo, *m),
            decreases self.re.len() - i,
        {
            let rule = &self.re[i];
            let ghost fs = rs[i as int];
            assert(fs == compiled_rule_view(rule@));
            let mut all = true;
            let mut j: usize = 0;
            while j < rule.len() && all
                invariant
                    j <= rule.len(),
                    i < self.re.len(),
                    self.re.len() == self.rules.len(),
                    rs == self.compiled(),
                    fs == rs[i as int],
                    filter_verdict(rs.take(i as int), *m) is No,
                    fs == compiled_rule_view(rule@),
                    all ==> rule_verdict(fs.take(j as int), *m) is Yes,
                    !all ==> rule_verdict(fs.take(j as int), *m) is No,
                    memo_ok(memo, *m),
                decreases rule.len() - j + if all { 1int } else { 0int },
            {
                let f = &rule[j];
                assert(fs.take(j + 1).drop_last() =~= fs.take(j as int));
                assert(fs.take(j + 1).last() == f@);
                match field_matches(&f.key, &f.patterns, m, &mut memo) {
                    Err(e) => {
                        proof {
                            lemma_rule_verdict_settled(fs, *m, j + 1);
                            assert(rs.take(i + 1).drop_last() =~= rs.take(i as int));
                            lemma_filter_verdict_settled(rs, *m, i + 1);
                        }
                        return Err(e);
                    },
                    Ok(matched) => {
                        all = matched;
                    },
                }
                j = j + 1;
            }
            proof {
                assert(rs.take(i + 1).drop_last() =~= rs.take(i as int));
                if all {
                    assert(fs.take(j as int) =~= fs);
                } else {
                    lemma_rule_verdict_settled(fs, *m, j as int);
                }
            }
            if all {
                proof {
                    lemma_filter_verdict_settled(rs, *m, i + 1);
                }
                return Ok(true);
            }
            i = i + 1;
        }
        assert(rs.take(i as int) =~= rs);
        Ok(false)
    }
}

/// A rule matches when all its fields do; trying stops at the first field
/// that does not match or cannot be read.
pub open spec fn rule_verdict(fs: Seq<FieldModel>, m: MessageFacts) -> Verdict
    decreases fs.len(),
{
    if fs.len() == 0 {
        Verdict::Yes
    } else {
        match rule_verdict(fs.drop_last(), m) {
            Verdict::Yes => field_verdict(fs.last().0, fs.last().1, m),
            v => v,
        }
    }
}

/// A filter matches when any of its rules does; trying stops at the first
/// rule that matches or cannot be read.
pub open spec fn filter_verdict(rs: Seq<Seq<FieldModel>>, m: MessageFacts) -> Verdict
    decreases rs.len(),
{
    if rs.len() == 0 {
        Verdict::No
    } else {
        match filter_verdict(rs.drop_last(), m) {
            Verdict::No => rule_verdict(rs.last(), m),
            v => v,
        }
    }
}

proof fn lemma_rule_verdict_settled(fs: Seq<FieldModel>, m: MessageFacts, j: int)
    requires
        0 <= j <= fs.len(),
        !(rule_verdict(fs.take(j), m) is Yes),
    ensures
        rule_verdict(fs, m) == rule_verdict(fs.take(j), m),
    decreases fs.len() - j,
{
    if j < fs.len() {
        assert(fs.take(j + 1).drop_last() =~= fs.take(j));
        lemma_rule_verdict_settled(fs, m, j + 1);
    } else {
        assert(fs.take(j) =~= fs);
    }
}

proof fn lemma_filter_verdict_settled(rs: Seq<Seq<FieldModel>>, m: MessageFacts, j: int)
    requires
        0 <= j <= rs.len(),
        !(filter_verdict(rs.take(j), m) is No),
    ensures
        filter_verdict(rs, m) == filter_verdict(rs.take(j), m),
    decreases rs.len() - j,
{
    if j < rs.len() {
        assert(rs.take(j + 1).drop_last() =~= rs.take(j));
        lemma_filter_verdict_settled(rs, m, j + 1);
    } else {
        assert(rs.take(j) =~= rs);
    }
}

/// The name a filter goes by.
pub open spec fn filter_name(f: Filter) -> Seq<char> {
    match f.name {
        Some(n) => n@,
        None => crate::naming::derived_name(rules_view(f.rules@)),
    }
}

/// What trying filter `f` on message `m` gives; nothing when `f` has not
/// been compiled since its rules were set.
pub open spec fn match_outcome(f: Filter, m: MessageFacts) -> Option<Verdict> {
    if f.re.len() != f.rules.len() {
        None
    } else {
        Some(filter_verdict(f.compiled(), m))
    }
}

/// The steps that applying `f` to a message with file `file` and id `id`
/// takes.
pub open spec fn filter_plan(f: Filter, file: Seq<char>, id: Seq<char>) -> Seq<crate::operations::ActionModel> {
    plan_of(value_opt(f.op.rm), value_opt(f.op.add), argv_opt(f.op.run), f.op.del, file, id, filter_name(f))
}

/// The first filter, in order, whose rules have a flaw, and that flaw.
pub open spec fn set_flaw(fs: Seq<Filter>) -> Option<Flaw>
    decreases fs.len(),
{
    if fs.len() == 0 {
        None
    } else {
        match set_flaw(fs.drop_last()) {
            Some(f) => Some(f),
            None => rules_flaw(rules_view(fs.last().rules@)),
        }
    }
}

proof fn lemma_set_flaw_settled(fs: Seq<Filter>, j: int)
    requires
        0 <= j <= fs.len(),
        set_flaw(fs.take(j)) is Some,
    ensures
        set_flaw(fs) == set_flaw(fs.take(j)),
    decreases fs.len() - j,
{
    if j < fs.len() {
        assert(fs.take(j + 1).drop_last() =~= fs.take(j));
        lemma_set_flaw_settled(fs, j + 1);
    } else {
        assert(fs.take(j) =~= fs);
    }
}

/// Whether `g` is `f` compiled.
pub open spec fn compiled_from(g: Filter, f: Filter) -> bool {
    &&& g.compiled() == compile_rules(rules_view(f.rules@))
    &&& g.rules == f.rules
    &&& g.name == f.name
    &&& g.desc == f.desc
    &&& g.op == f.op
}

/// Compiles a whole set of filters, or none: the first filter that fails
/// to compile fails the set.
pub fn compile_filters(filters: Vec<Filter>) -> (r: Result<Vec<Filter>, FilterError>)
    ensures
        r is Ok <==> set_flaw(filters@) is None,
        r is Ok ==> r->Ok_0.len() == filters.len() && forall|i: int|
            0 <= i < filters.len() ==> compiled_from(#[trigger] r->Ok_0@[i], filters@[i]),
        r is Err ==> (r->Err_0 is UnsupportedValue <==> set_flaw(filters@) == Some(Flaw::BadValue)),
        r is Err ==> (r->Err_0 is RegexError <==> set_flaw(filters@) == Some(Flaw::BadPattern)),
{
    let ghost fs = filters@;
    assert(fs.len() == filters.len());
    let mut out: Vec<Filter> = Vec::new();
    let mut rest = filters;
    let mut i: usize = 0;
    while rest.len() > 0
        invariant
            i + rest.len() == fs.len(),
            fs.len() <= usize::MAX,
            fs == filters@,
            rest@ =~= fs.subrange(i as int, fs.len() as int),
            out.len() == i,
            set_flaw(fs.take(i as int)) is None,
            forall|k: int| 0 <= k < i ==> compiled_from(#[trigger] out@[k], fs[k]),
        decreases rest.len(),
    {
        let f = rest.remove(0);
        assert(f == fs[i as int]);
        assert(fs.take(i + 1).drop_last() =~= fs.take(i as int));
        assert(fs.take(i + 1).last() == fs[i as int]);
        match f.compile() {
            Ok(g) => {
                out.push(g);
            },
            Err(e) => {
                proof {
                    assert(rules_flaw(rules_view(fs[i as int].rules@)) is Some);
                    assert(set_flaw(fs.take(i + 1)) == rules_flaw(rules_view(fs[i as int].rules@)));
                    lemma_set_flaw_settled(fs, i + 1);
                }
                return Err(e);
            },
        }
        i = i + 1;
    }
    assert(fs.take(i as int) =~= fs);
    Ok(out)
}

/// The keys of compiled rules, rule by rule, field by field.
pub open spec fn keys_of(rs: Seq<Seq<FieldModel>>) -> Seq<Seq<char>>
    decreases rs.len(),
{
    if rs.len() == 0 {
        seq![]
    } else {
        keys_of(rs.drop_last()) + rs.last().map_values(|f: FieldModel| f.0)
    }
}

/// A key naming a virtual field rather than a header.
pub open spec fn is_virtual(k: Seq<char>) -> bool {
    k.len() > 0 && k[0] == '@'
}

/// What must be read of a message to try a filter on it.
#[derive(Debug)]
pub struct Wants {
    /// The headers to look up.
    pub headers: Vec<String>,
    /// Whether the thread's tags are read.
    pub thread_tags: bool,
    /// Whether the message file is read.
    pub content: bool,
}

/// Whether `w` asks for exactly what fields with keys `ks` read.
pub open spec fn wants_keys(w: Wants, ks: Seq<Seq<char>>) -> bool {
    &&& w.thread_tags == ks.contains("@thread-tags"@)
    &&& w.content == exists|i: int| 0 <= i < ks.len() && is_mime_key(#[trigger] ks[i])
    &&& forall|k: Seq<char>| #[trigger] texts_of_contains(w.headers@, k) <==> (ks.contains(k) && !is_virtual(k))
}

pub open spec fn texts_of_contains(v: Seq<String>, k: Seq<char>) -> bool {
    crate::value::texts_of(v).contains(k)
}

/// Once a prefix of the fields has a flaw, every longer prefix has the same.
proof fn lemma_fields_flaw_extends(fs: Seq<(Seq<char>, ValueModel)>, j: int)
    requires
        0 <= j <= fs.len(),
        fields_flaw(fs.take(j)) is Some,
    ensures
        fields_flaw(fs) == fields_flaw(fs.take(j)),
    decreases fs.len() - j,
{
    if j < fs.len() {
        assert(fs.take(j + 1).drop_last() =~= fs.take(j));
        lemma_fields_flaw_extends(fs, j + 1);
    } else {
        assert(fs.take(j) =~= fs);
    }
}

/// Once a prefix of the rules has a flaw, every longer prefix has the same.
proof fn lemma_rules_flaw_extends(rs: Seq<Seq<(Seq<char>, ValueModel)>>, j: int)
    requires
        0 <= j <= rs.len(),
        rules_flaw(rs.take(j)) is Some,
    ensures
        rules_flaw(rs) == rules_flaw(rs.take(j)),
    decreases rs.len() - j,
{
    if j < rs.len() {
        assert(rs.take(j + 1).drop_last() =~= rs.take(j));
        lemma_rules_flaw_extends(rs, j + 1);
    } else {
        assert(rs.take(j) =~= rs);
    }
}

proof fn lemma_fields_flaw_none(fs: Seq<(Seq<char>, ValueModel)>, j: int)
    requires
        fields_flaw(fs) is None,
        0 <= j < fs.len(),
    ensures
        value_flaw(fs[j].1) is None,
    decreases fs.len(),
{
    if j < fs.len() - 1 {
        lemma_fields_flaw_none(fs.drop_last(), j);
    }
}

proof fn lemma_rules_flaw_none(rs: Seq<Seq<(Seq<char>, ValueModel)>>, i: int)
    requires
        rules_flaw(rs) is None,
        0 <= i < rs.len(),
    ensures
        fields_flaw(rs[i]) is None,
    decreases rs.len(),
{
    if i < rs.len() - 1 {
        lemma_rules_flaw_none(rs.drop_last(), i);
    }
}

proof fn lemma_set_flaw_none(fs: Seq<Filter>, i: int)
    requires
        set_flaw(fs) is None,
        0 <= i < fs.len(),
    ensures
        rules_flaw(rules_view(fs[i].rules@)) is None,
    decreases fs.len(),
{
    if i < fs.len() - 1 {
        lemma_set_flaw_none(fs.drop_last(), i);
    }
}

/// A pattern that is no regular expression, in any field of any rule of
/// any filter of a set, makes compiling the set fail; compiling comes
/// before any message is tried, so no message is touched.
pub proof fn lemma_invalid_pattern_fails(fs: Seq<Filter>, f: int, i: int, j: int, k: int)
    requires
        0 <= f < fs.len(),
        0 <= i < rules_view(fs[f].rules@).len(),
        0 <= j < rules_view(fs[f].rules@)[i].len(),
        0 <= k < patterns_of(rules_view(fs[f].rules@)[i][j].1).len(),
        !pattern_valid(patterns_of(rules_view(fs[f].rules@)[i][j].1)[k]),
    ensures
        rules_flaw(rules_view(fs[f].rules@)) is Some,
        set_flaw(fs) is Some,
{
    let rs = rules_view(fs[f].rules@);
    if rules_flaw(rs) is None {
        lemma_rules_flaw_none(rs, i);
        lemma_fields_flaw_none(rs[i], j);
    }
    if set_flaw(fs) is None {
        lemma_set_flaw_none(fs, f);
    }
}

/// A field with the patterns `a` and `b` matches exactly when it would
/// match with `a` alone or with `b` alone.
pub proof fn lemma_several_patterns_any(key: Seq<char>, a: Seq<char>, b: Seq<char>, m: MessageFacts)
    ensures
        field_verdict(key, seq![a, b], m) is Yes <==> (field_verdict(key, seq![a], m) is Yes
            || field_verdict(key, seq![b], m) is Yes),
{
    let ab = seq![a, b];
    let sa = seq![a];
    let sb = seq![b];
    if let Resolved::Values(vs) = resolve(key, m) {
        if any_match(ab, vs) {
            let (x, y) = choose|x: int, y: int|
                0 <= x < vs.len() && 0 <= y < ab.len() && #[trigger] pattern_matches(ab[y], vs[x]);
            if y == 0 {
                assert(pattern_matches(sa[0], vs[x]));
            } else {
                assert(pattern_matches(sb[0], vs[x]));
            }
        }
        if any_match(sa, vs) {
            let (x, y) = choose|x: int, y: int|
                0 <= x < vs.len() && 0 <= y < sa.len() && #[trigger] pattern_matches(sa[y], vs[x]);
            assert(pattern_matches(ab[0], vs[x]));
        }
        if any_match(sb, vs) {
            let (x, y) = choose|x: int, y: int|
                0 <= x < vs.len() && 0 <= y < sb.len() && #[trigger] pattern_matches(sb[y], vs[x]);
            assert(pattern_matches(ab[1], vs[x]));
        }
    }
}

/// Two rules of one field each match when either field does; one rule of
/// the same two fields matches when both do. The first needs the first
/// field to be readable: a field that cannot be read ends the match.
pub proof fn lemma_rules_or_fields_and(f: FieldModel, g: FieldModel, m: MessageFacts)
    ensures
        !(field_verdict(f.0, f.1, m) is Fault) ==> (filter_verdict(seq![seq![f], seq![g]], m) is Yes
            <==> (field_verdict(f.0, f.1, m) is Yes || field_verdict(g.0, g.1, m) is Yes)),
        filter_verdict(seq![seq![f, g]], m) is Yes <==> (field_verdict(f.0, f.1, m) is Yes
            && field_verdict(g.0, g.1, m) is Yes),
{
    let one = seq![f];
    let two = seq![g];
    let both = seq![f, g];
    let empty = Seq::<FieldModel>::empty();
    assert(one.drop_last() =~= empty);
    assert(two.drop_last() =~= empty);
    assert(both.drop_last() =~= one);
    assert(rule_verdict(empty, m) is Yes);
    assert(rule_verdict(one, m) == field_verdict(f.0, f.1, m));
    assert(rule_verdict(two, m) == field_verdict(g.0, g.1, m));
    assert(rule_verdict(both, m) == match rule_verdict(one, m) {
        Verdict::Yes => field_verdict(g.0, g.1, m),
        v => v,
    });
    let rs = seq![one, two];
    let first = seq![one];
    let only = seq![both];
    let none = Seq::<Seq<FieldModel>>::empty();
    assert(rs.drop_last() =~= first);
    assert(first.drop_last() =~= none);
    assert(only.drop_last() =~= none);
    assert(filter_verdict(none, m) is No);
    assert(filter_verdict(first, m) == rule_verdict(one, m));
    assert(filter_verdict(only, m) == rule_verdict(both, m));
    assert(filter_verdict(rs, m) == match filter_verdict(first, m) {
        Verdict::No => rule_verdict(two, m),
        v => v,
    });
}

} // verus!

//! Names derived from a filter's rules: a hash of a canonical byte
//! encoding, written in hexadecimal. Rules keep their fields in key order,
//! so the encoding, and the name, depend only on what the rules say.
//! Changing the encoding or the hash changes every derived name. The hash
//! is std's `DefaultHasher`, whose algorithm std does not promise to keep
//! across Rust releases: a derived name is stable for one build, and may
//! change with a toolchain update. Give a filter an explicit name where it
//! must be a lasting identifier.
use vstd::prelude::*;
use std::collections::hash_map::DefaultHasher;
use std::hash::Hasher;
use vstd::std_specs::hash::DefaultHasherAdditionalSpecFns;

use crate::text::chars_of;
use crate::value::{field_map, keys_sorted, lemma_sorted_fields_canonical, Rule, Value, ValueModel};

verus! {

pub open spec fn char_bytes(c: char) -> Seq<u8> {
    let x = c as u32;
    seq![(x / 16777216) as u8, ((x / 65536) % 256) as u8, ((x / 256) % 256) as u8, (x % 256) as u8]
}

/// A text: four bytes per character, then an end mark.
pub open spec fn text_bytes(t: Seq<char>) -> Seq<u8>
    decreases t.len(),
{
    if t.len() == 0 {
        seq![0xffu8]
    } else {
        text_bytes(t.drop_last()).drop_last() + char_bytes(t.last()) + seq![0xffu8]
    }
}

pub open spec fn texts_bytes(ts: Seq<Seq<char>>) -> Seq<u8>
    decreases ts.len(),
{
    if ts.len() == 0 {
        seq![]
    } else {
        texts_bytes(ts.drop_last()) + text_bytes(ts.last())
    }
}

pub open spec fn value_bytes(v: ValueModel) -> Seq<u8> {
    match v {
        ValueModel::Single(p) => seq![0xf0u8] + text_bytes(p),
        ValueModel::Multiple(ps) => seq![0xf1u8] + texts_bytes(ps) + seq![0xfeu8],
        ValueModel::Bool(b) => seq![0xf2u8, if b { 1u8 } else { 0u8 }],
    }
}

pub open spec fn fields_bytes(fs: Seq<(Seq<char>, ValueModel)>) -> Seq<u8>
    decreases fs.len(),
{
    if fs.len() == 0 {
        seq![]
    } else {
        fields_bytes(fs.drop_last()) + text_bytes(fs.last().0) + value_bytes(fs.last().1)
    }
}

/// The canonical encoding of a list of rules.
pub open spec fn rules_bytes(rs: Seq<Seq<(Seq<char>, ValueModel)>>) -> Seq<u8>
    decreases rs.len(),
{
    if rs.len() == 0 {
        seq![]
    } else {
        rules_bytes(rs.drop_last()) + seq![0xfdu8] + fields_bytes(rs.last())
    }
}

pub open spec fn hex_digit(d: nat) -> char {
    if d < 10 {
        (('0' as u32) + d) as char
    } else {
        (('a' as u32) + d - 10) as char
    }
}

/// `n` in lower-case hexadecimal, without leading zeros.
pub open spec fn hex_of(n: nat) -> Seq<char>
    decreases n,
{
    if n < 16 {
        seq![hex_digit(n)]
    } else {
        hex_of(n / 16).push(hex_digit(n % 16))
    }
}

/// The name derived from rules: the hash of their encoding, in hex.
pub open spec fn derived_name(rs: Seq<Seq<(Seq<char>, ValueModel)>>) -> Seq<char> {
    hex_of(DefaultHasher::spec_finish(seq![rules_bytes(rs)]) as nat)
}

fn push_text(out: &mut Vec<u8>, t: &str)
    ensures
        final(out)@ == old(out)@ + text_bytes(t@),
{
    let cs = chars_of(t);
    let ghost start = out@;
    let mut i: usize = 0;
    while i < cs.len()
        invariant
            i <= cs.len(),
            cs@ == t@,
            out@ == start + text_bytes(cs@.take(i as int)).drop_last(),
        decreases cs.len() - i,
    {
        let x = cs[i] as u32;
        let ghost before = out@;
        out.push((x / 16777216) as u8);
        out.push(((x / 65536) % 256) as u8);
        out.push(((x / 256) % 256) as u8);
        out.push((x % 256) as u8);
        proof {
            let p = cs@.take(i + 1);
            assert(p.drop_last() =~= cs@.take(i as int));
            assert(p.last() == cs@[i as int]);
            assert(out@ =~= before + char_bytes(cs@[i as int]));
            assert(text_bytes(p).drop_last() =~= text_bytes(cs@.take(i as int)).drop_last()
                + char_bytes(cs@[i as int]));
        }
        i = i + 1;
    }
    out.push(0xffu8);
    proof {
        assert(cs@.take(i as int) =~= t@);
        lemma_text_bytes_ends(t@);
        assert(out@ =~= start + text_bytes(t@));
    }
}

proof fn lemma_text_bytes_ends(t: Seq<char>)
    ensures
        text_bytes(t).len() > 0,
        text_bytes(t) == text_bytes(t).drop_last() + seq![0xffu8],
    decreases t.len(),
{
    if t.len() > 0 {
        lemma_text_bytes_ends(t.drop_last());
    }
    assert(text_bytes(t) =~= text_bytes(t).drop_last() + seq![0xffu8]);
}

fn digit_text(d: u64) -> (r: &'static str)
    requires
        d < 16,
    ensures
        r@ == seq![hex_digit(d as nat)],
{
    if d == 0 {
        proof {
            reveal_strlit("0");
        }
        "0"
    } else if d == 1 {
        proof {
            reveal_strlit("1");
        }
        "1"
    } else if d == 2 {
        proof {
            reveal_strlit("2");
        }
        "2"
    } else if d == 3 {
        proof {
            reveal_strlit("3");
        }
        "3"
    } else if d == 4 {
        proof {
            reveal_strlit("4");
        }
        "4"
    } else if d == 5 {
        proof {
            reveal_strlit("5");
        }
        "5"
    } else if d == 6 {
        proof {
            reveal_strlit("6");
        }
        "6"
    } else if d == 7 {
        proof {
            reveal_strlit("7");
        }
        "7"
    } else if d == 8 {
        proof {
            reveal_strlit("8");
        }
        "8"
    } else if d == 9 {
        proof {
            reveal_strlit("9");
        }
        "9"
    } else if d == 10 {
        proof {
            reveal_strlit("a");
        }
        "a"
    } else if d == 11 {
        proof {
            reveal_strlit("b");
        }
        "b"
    } else if d == 12 {
        proof {
            reveal_strlit("c");
        }
        "c"
    } else if d == 13 {
        proof {
            reveal_strlit("d");
        }
        "d"
    } else if d == 14 {
        proof {
            reveal_strlit("e");
        }
        "e"
    } else {
        proof {
            reveal_strlit("f");
        }
        "f"
    }
}

/// `n` in lower-case hexadecimal.
pub fn to_hex(n: u64) -> (r: String)
    ensures
        r@ == hex_of(n as nat),
    decreases n,
{
    if n < 16 {
        String::from_str(digit_text(n))
    } else {
        let mut s = to_hex(n / 16);
        s.append(digit_text(n % 16));
        s
    }
}

fn push_texts(out: &mut Vec<u8>, ts: &Vec<String>)
    ensures
        final(out)@ == old(out)@ + texts_bytes(crate::value::texts_of(ts@)),
{
    let ghost start = out@;
    let ghost all = crate::value::texts_of(ts@);
    let mut i: usize = 0;
    while i < ts.len()
        invariant
            i <= ts.len(),
            all == crate::value::texts_of(ts@),
            out@ == start + texts_bytes(all.take(i as int)),
        decreases ts.len() - i,
    {
        let ghost before = out@;
        push_text(out, ts[i].as_str());
        proof {
            assert(all.take(i + 1).drop_last() =~= all.take(i as int));
            assert(all.take(i + 1).last() == ts@[i as int]@);
            assert(out@ =~= start + texts_bytes(all.take(i + 1)));
        }
        i = i + 1;
    }
    assert(all.take(i as int) =~= all);
}

fn push_value(out: &mut Vec<u8>, v: &Value)
    ensures
        final(out)@ == old(out)@ + value_bytes(v@),
{
    let ghost start = out@;
    match v {
        Value::Single(p) => {
            out.push(0xf0u8);
            push_text(out, p.as_str());
        },
        Value::Multiple(ps) => {
            out.push(0xf1u8);
            push_texts(out, ps);
            out.push(0xfeu8);
        },
        Value::Bool(b) => {
            out.push(0xf2u8);
            out.push(if *b { 1u8 } else { 0u8 });
        },
    }
    assert(out@ =~= start + value_bytes(v@));
}

fn push_rule(out: &mut Vec<u8>, r: &Rule)
    ensures
        final(out)@ == old(out)@ + fields_bytes(r@),
{
    let fields = r.fields();
    let ghost fs = r@;
    let ghost start = out@;
    let mut i: usize = 0;
    while i < fields.len()
        invariant
            i <= fields.len(),
            fields@.map_values(|f: crate::value::Field| f@) == fs,
            out@ == start + fields_bytes(fs.take(i as int)),
        decreases fields.len() - i,
    {
        push_text(out, fields[i].key.as_str());
        push_value(out, &fields[i].value);
        proof {
            assert(fs.take(i + 1).drop_last() =~= fs.take(i as int));
            assert(fs.take(i + 1).last() == fields@[i as int]@);
            assert(out@ =~= start + fields_bytes(fs.take(i + 1)));
        }
        i = i + 1;
    }
    assert(fs.take(i as int) =~= fs);
}

/// The canonical encoding of `rules`.
pub fn encode_rules(rules: &Vec<Rule>) -> (r: Vec<u8>)
    ensures
        r@ == rules_bytes(crate::filter::rules_view(rules@)),
{
    let ghost rs = crate::filter::rules_view(rules@);
    let mut out: Vec<u8> = Vec::new();
    let mut i: usize = 0;
    while i < rules.len()
        invariant
            i <= rules.len(),
            rs == crate::filter::rules_view(rules@),
            out@ == rules_bytes(rs.take(i as int)),
        decreases rules.len() - i,
    {
        out.push(0xfdu8);
        push_rule(&mut out, &rules[i]);
        proof {
            assert(rs.take(i + 1).drop_last() =~= rs.take(i as int));
            assert(rs.take(i + 1).last() == rules@[i as int]@);
            assert(out@ =~= rules_bytes(rs.take(i + 1)));
        }
        i = i + 1;
    }
    assert(rs.take(i as int) =~= rs);
    out
}

/// The name derived from `rules`.
pub fn derive_name(rules: &Vec<Rule>) -> (r: String)
    ensures
        r@ == derived_name(crate::filter::rules_view(rules@)),
{
    let bytes = encode_rules(rules);
    let mut h = DefaultHasher::new();
    h.write(bytes.as_slice());
    assert(h@ =~= seq![bytes@]);
    to_hex(h.finish())
}

/// Two rule lists that say the same thing, rule by rule, get the same
/// derived name, in whatever order each rule's fields were set: rules keep
/// their fields in key order, so equal mappings are equal lists.
pub proof fn lemma_same_rules_same_name(a: Seq<Rule>, b: Seq<Rule>)
    requires
        a.len() == b.len(),
        forall|i: int| 0 <= i < a.len() ==> keys_sorted(#[trigger] a[i]@) && keys_sorted(b[i]@),
        forall|i: int| 0 <= i < a.len() ==> field_map(#[trigger] a[i]@) == field_map(b[i]@),
    ensures
        derived_name(crate::filter::rules_view(a)) == derived_name(crate::filter::rules_view(b)),
{
    assert forall|i: int| 0 <= i < a.len() implies #[trigger] a[i]@ == b[i]@ by {
        lemma_sorted_fields_canonical(a[i]@, b[i]@);
    }
    assert(crate::filter::rules_view(a) =~= crate::filter::rules_view(b));
}

} // verus!

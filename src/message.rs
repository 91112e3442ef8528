//! What the matcher knows of a message, and how each rule field is read
//! from it.
use vstd::prelude::*;

use crate::error::FilterError;
use crate::mime::{
    mail_body, mail_disposition, mail_structure, parse_mail, part_body, part_disposition,
    part_types, MimeMessage,
};
use crate::pattern::{pattern_matches, Pattern};
use crate::text::{has_prefix, same_text, starts_with};
use crate::value::texts_of;

verus! {

/// One header as the mailbox gave it: its value, no value when the message
/// lacks it, or the mailbox's failure to look it up.
#[derive(Debug)]
pub struct HeaderValue {
    pub name: String,
    pub value: Result<Option<String>, String>,
}

/// A message as the matcher sees it, gathered by the caller from the
/// mailbox. Parts the caller did not gather are `None`; a field that needs
/// them then does not match.
#[derive(Debug)]
pub struct MessageFacts {
    /// The message's tags.
    pub tags: Vec<String>,
    /// The names of its files that are valid text.
    pub paths: Vec<String>,
    /// Headers looked up so far; the first entry of a name counts.
    pub headers: Vec<HeaderValue>,
    /// The tags of its thread, no thread, or the mailbox's failure.
    pub thread_tags: Option<Result<Option<Vec<String>>, String>>,
    /// The bytes of its file, or the failure to read them.
    pub content: Option<Result<Vec<u8>, String>>,
}

/// Why reading a field failed.
pub enum Fault {
    /// The mailbox failed, saying this.
    Store(Seq<char>),
    /// The message file could not be read, for this reason.
    Io(Seq<char>),
    /// The message file is no MIME message, or a part does not decode.
    Mail,
}

/// What a field of a message reads as.
pub enum Resolved {
    Fatal(Fault),
    /// The message has nothing under this key: the field does not match.
    Missing,
    /// The texts that the field's patterns are tried on.
    Values(Seq<Seq<char>>),
}

/// Whether `e` is the error that reports `f`.
pub open spec fn reports(e: FilterError, f: Fault) -> bool {
    match f {
        Fault::Store(t) => e is NotmuchError && e->NotmuchError_0@ == t,
        Fault::Io(t) => e is IoError && e->IoError_0@ == t,
        Fault::Mail => e is MailParseError,
    }
}

pub open spec fn is_mime_key(k: Seq<char>) -> bool {
    k == "@attachment"@ || k == "@body"@ || k == "@attachment-body"@
}

/// The part whose text `@body` reads: the first part of a multipart
/// message, else the message itself.
pub open spec fn primary_part(n: nat) -> Option<usize> {
    if n == 0 {
        None
    } else {
        Some(0usize)
    }
}

/// What the matcher reads of one top-level part of a message.
#[derive(Debug)]
pub struct PartInfo {
    /// Whether its Content-Disposition makes it an attachment.
    pub attachment: bool,
    /// Its Content-Disposition `filename` parameter.
    pub filename: Option<String>,
    /// Its media type, such as `text/plain`.
    pub media_type: String,
}

pub struct PartModel {
    pub attachment: bool,
    pub filename: Option<Seq<char>>,
    pub media_type: Seq<char>,
}

impl View for PartInfo {
    type V = PartModel;

    open spec fn view(&self) -> PartModel {
        PartModel {
            attachment: self.attachment,
            filename: match self.filename {
                Some(f) => Some(f@),
                None => None,
            },
            media_type: self.media_type@,
        }
    }
}

pub open spec fn parts_view(ps: Seq<PartInfo>) -> Seq<PartModel> {
    ps.map_values(|p: PartInfo| p@)
}

/// The top-level parts of the message parsed from `raw`, whose media
/// types are `types`.
pub open spec fn parts_of(raw: Seq<u8>, types: Seq<Seq<char>>) -> Seq<PartModel> {
    Seq::new(
        types.len(),
        |i: int|
            PartModel {
                attachment: mail_disposition(raw, seq![i as nat]).0,
                filename: mail_disposition(raw, seq![i as nat]).1,
                media_type: types[i],
            },
    )
}

/// The file names of the parts that are attachments and have one, in
/// order.
pub open spec fn names_of_attachments(ps: Seq<PartModel>) -> Seq<Seq<char>>
    decreases ps.len(),
{
    if ps.len() == 0 {
        seq![]
    } else {
        let prev = names_of_attachments(ps.drop_last());
        let p = ps.last();
        if p.attachment && p.filename is Some {
            prev.push(p.filename->Some_0)
        } else {
            prev
        }
    }
}

/// `@attachment-body` reads the attachments of a `text` media type only.
pub open spec fn is_text_attachment(p: PartModel) -> bool {
    p.attachment && has_prefix(p.media_type, "text"@)
}

/// The decoded texts of the text attachments among the first `n` parts
/// `ps` of the message parsed from `raw`; nothing where one does not
/// decode.
pub open spec fn text_attachments(raw: Seq<u8>, ps: Seq<PartModel>, n: nat) -> Option<
    Seq<Seq<char>>,
>
    decreases n,
{
    if n == 0 {
        Some(seq![])
    } else {
        match text_attachments(raw, ps, (n - 1) as nat) {
            None => None,
            Some(prev) => if is_text_attachment(ps[n - 1]) {
                match mail_body(raw, seq![(n - 1) as nat]) {
                    None => None,
                    Some(b) => Some(prev.push(b)),
                }
            } else {
                Some(prev)
            },
        }
    }
}

/// The file names of the attachments among `parts`, in order.
pub fn attachment_names(parts: &Vec<PartInfo>) -> (r: Vec<String>)
    ensures
        texts_of(r@) == names_of_attachments(parts_view(parts@)),
{
    let ghost ps = parts_view(parts@);
    let mut names: Vec<String> = Vec::new();
    let mut i: usize = 0;
    assert(texts_of(names@) =~= names_of_attachments(ps.take(0)));
    while i < parts.len()
        invariant
            i <= parts.len(),
            ps == parts_view(parts@),
            texts_of(names@) == names_of_attachments(ps.take(i as int)),
        decreases parts.len() - i,
    {
        let p = &parts[i];
        assert(ps.take(i + 1).drop_last() =~= ps.take(i as int));
        assert(ps.take(i + 1).last() == p@);
        if p.attachment {
            if let Some(f) = &p.filename {
                let ghost before = names@;
                names.push(f.clone());
                assert(texts_of(names@) =~= texts_of(before).push(f@));
            }
        }
        i = i + 1;
    }
    assert(ps.take(i as int) =~= ps);
    names
}

/// Whether `@attachment-body` reads part `p`: an attachment of a `text`
/// media type.
pub fn text_attachment(p: &PartInfo) -> (r: bool)
    ensures
        r == is_text_attachment(p@),
{
    p.attachment && starts_with(p.media_type.as_str(), "text")
}

/// What a field read from the message file is.
pub open spec fn resolve_mime(key: Seq<char>, raw: Seq<u8>) -> Resolved {
    match mail_structure(raw) {
        None => Resolved::Fatal(Fault::Mail),
        Some(types) => if key == "@attachment"@ {
            Resolved::Values(names_of_attachments(parts_of(raw, types)))
        } else if key == "@body"@ {
            match mail_body(raw, crate::mime::part_path(primary_part(types.len()))) {
                None => Resolved::Fatal(Fault::Mail),
                Some(b) => Resolved::Values(seq![b]),
            }
        } else {
            match text_attachments(raw, parts_of(raw, types), types.len()) {
                None => Resolved::Fatal(Fault::Mail),
                Some(bs) => Resolved::Values(bs),
            }
        },
    }
}

/// The first header entry named `k`.
pub open spec fn find_header(hs: Seq<HeaderValue>, k: Seq<char>) -> Option<int>
    decreases hs.len(),
{
    if hs.len() == 0 {
        None
    } else {
        match find_header(hs.drop_last(), k) {
            Some(i) => Some(i),
            None => if hs.last().name@ == k {
                Some(hs.len() - 1)
            } else {
                None
            },
        }
    }
}

/// What field `key` of a message reads as. Keys starting with `@` are
/// virtual; an unknown virtual key reads as missing. Any other key is a
/// header name.
pub open spec fn resolve(key: Seq<char>, m: MessageFacts) -> Resolved {
    if key == "@tags"@ {
        Resolved::Values(texts_of(m.tags@))
    } else if key == "@path"@ {
        Resolved::Values(texts_of(m.paths@))
    } else if key == "@thread-tags"@ {
        match m.thread_tags {
            Some(Err(t)) => Resolved::Fatal(Fault::Store(t@)),
            Some(Ok(Some(ts))) => Resolved::Values(texts_of(ts@)),
            _ => Resolved::Missing,
        }
    } else if is_mime_key(key) {
        match m.content {
            Some(Err(t)) => Resolved::Fatal(Fault::Io(t@)),
            Some(Ok(raw)) => resolve_mime(key, raw@),
            None => Resolved::Missing,
        }
    } else if key.len() > 0 && key[0] == '@' {
        Resolved::Missing
    } else {
        match find_header(m.headers@, key) {
            None => Resolved::Missing,
            Some(i) => match m.headers@[i].value {
                Err(t) => Resolved::Fatal(Fault::Store(t@)),
                Ok(None) => Resolved::Missing,
                Ok(Some(v)) => Resolved::Values(seq![v@]),
            },
        }
    }
}

/// Some pattern matches some value.
pub open spec fn any_match(ps: Seq<Seq<char>>, vs: Seq<Seq<char>>) -> bool {
    exists|i: int, j: int|
        0 <= i < vs.len() && 0 <= j < ps.len() && #[trigger] pattern_matches(ps[j], vs[i])
}

/// The outcome of trying a field, a rule or a filter on a message.
pub enum Verdict {
    Yes,
    No,
    Fault(Fault),
}

/// A field matches when its key reads as values and one of its patterns
/// matches one of them.
pub open spec fn field_verdict(key: Seq<char>, ps: Seq<Seq<char>>, m: MessageFacts) -> Verdict {
    verdict_of(resolve(key, m), ps)
}

pub open spec fn verdict_of(res: Resolved, ps: Seq<Seq<char>>) -> Verdict {
    match res {
        Resolved::Fatal(f) => Verdict::Fault(f),
        Resolved::Missing => Verdict::No,
        Resolved::Values(vs) => if any_match(ps, vs) {
            Verdict::Yes
        } else {
            Verdict::No
        },
    }
}

/// Whether `r` reports verdict `v`.
pub open spec fn gives(r: Result<bool, FilterError>, v: Verdict) -> bool {
    match v {
        Verdict::Yes => r == Ok::<bool, FilterError>(true),
        Verdict::No => r == Ok::<bool, FilterError>(false),
        Verdict::Fault(f) => r is Err && reports(r->Err_0, f),
    }
}

/// Whether one of `patterns` matches one of `values`.
pub fn any_matches(patterns: &Vec<Pattern>, values: &Vec<String>) -> (r: bool)
    ensures
        r == any_match(crate::filter::sources_of(patterns@), texts_of(values@)),
{
    let ghost ps = crate::filter::sources_of(patterns@);
    let ghost vs = texts_of(values@);
    let mut i: usize = 0;
    while i < values.len()
        invariant
            i <= values.len(),
            ps == crate::filter::sources_of(patterns@),
            vs == texts_of(values@),
            forall|a: int, b: int|
                0 <= a < i && 0 <= b < ps.len() ==> !#[trigger] pattern_matches(ps[b], vs[a]),
        decreases values.len() - i,
    {
        let mut j: usize = 0;
        while j < patterns.len()
            invariant
                i < values.len(),
                j <= patterns.len(),
                ps == crate::filter::sources_of(patterns@),
                vs == texts_of(values@),
                forall|a: int, b: int|
                    0 <= a < i && 0 <= b < ps.len() ==> !#[trigger] pattern_matches(ps[b], vs[a]),
                forall|b: int| 0 <= b < j ==> !#[trigger] pattern_matches(ps[b], vs[i as int]),
            decreases patterns.len() - j,
        {
            if patterns[j].is_match(values[i].as_str()) {
                assert(pattern_matches(ps[j as int], vs[i as int]));
                return true;
            }
            j = j + 1;
        }
        i = i + 1;
    }
    false
}

/// A parsed message file kept for the rest of one match, so that the file
/// is parsed at most once however many fields read it.
pub open spec fn memo_ok(memo: Option<MimeMessage>, m: MessageFacts) -> bool {
    memo matches Some(p) ==> (m.content matches Some(Ok(raw)) && p.raw() == raw@ && mail_structure(
        raw@,
    ) is Some)
}

/// Tries a field read from the message file.
fn mime_verdict<'a>(
    key: &String,
    patterns: &Vec<Pattern>,
    raw: &'a Vec<u8>,
    memo: &mut Option<MimeMessage<'a>>,
) -> (r: Result<bool, FilterError>)
    requires
        is_mime_key(key@),
        *old(memo) matches Some(p) ==> p.raw() == raw@ && mail_structure(raw@) is Some,
    ensures
        *final(memo) matches Some(p) ==> p.raw() == raw@ && mail_structure(raw@) is Some,
        gives(r, verdict_of(resolve_mime(key@, raw@), crate::filter::sources_of(patterns@))),
{
    let parsed = match memo.take() {
        Some(p) => p,
        None => match parse_mail(raw.as_slice()) {
            Ok(p) => p,
            Err(e) => {
                return Err(FilterError::MailParseError(e));
            },
        },
    };
    let ghost types = mail_structure(raw@)->Some_0;
    let ghost ps = parts_of(raw@, types);
    let kinds = part_types(&parsed);
    let n = kinds.len();
    let mut parts: Vec<PartInfo> = Vec::new();
    let mut i: usize = 0;
    while i < n
        invariant
            i <= n,
            n == types.len(),
            kinds@.len() == n,
            texts_of(kinds@) == types,
            parsed.raw() == raw@,
            mail_structure(raw@) == Some(types),
            ps == parts_of(raw@, types),
            parts_view(parts@) =~= ps.take(i as int),
            *memo is None,
        decreases n - i,
    {
        let d = part_disposition(&parsed, i);
        let info = PartInfo { attachment: d.0, filename: d.1, media_type: kinds[i].clone() };
        assert(info@ == ps[i as int]) by {
            assert(kinds@[i as int]@ == types[i as int]);
        }
        let ghost before = parts@;
        let ghost m = info@;
        parts.push(info);
        assert(parts_view(parts@) =~= parts_view(before).push(m));
        assert(ps.take(i + 1) =~= ps.take(i as int).push(ps[i as int]));
        i = i + 1;
    }
    assert(ps.take(n as int) =~= ps);
    let mut values: Vec<String> = Vec::new();
    if same_text(key.as_str(), "@attachment") {
        values = attachment_names(&parts);
    } else if same_text(key.as_str(), "@body") {
        let part = if n == 0 {
            None
        } else {
            Some(0usize)
        };
        match part_body(&parsed, part) {
            Ok(b) => {
                values.push(b);
                assert(texts_of(values@) =~= seq![values@[0]@]);
            },
            Err(e) => {
                return Err(FilterError::MailParseError(e));
            },
        }
    } else {
        let mut i: usize = 0;
        assert(texts_of(values@) =~= Seq::<Seq<char>>::empty());
        while i < n
            invariant
                i <= n,
                n == types.len(),
                parts@.len() == n,
                parts_view(parts@) == ps,
                parsed.raw() == raw@,
                mail_structure(raw@) == Some(types),
                ps == parts_of(raw@, types),
                text_attachments(raw@, ps, i as nat) == Some(texts_of(values@)),
                *memo is None,
                key@ != "@attachment"@ && key@ != "@body"@,
            decreases n - i,
        {
            assert(parts@[i as int]@ == ps[i as int]);
            if text_attachment(&parts[i]) {
                match part_body(&parsed, Some(i)) {
                    Ok(b) => {
                        let ghost before = values@;
                        let ghost text = b@;
                        values.push(b);
                        assert(texts_of(values@) =~= texts_of(before).push(text));
                    },
                    Err(e) => {
                        proof {
                            assert(((i as nat + 1) - 1) as nat == i as nat);
                            assert(text_attachments(raw@, ps, i as nat + 1) is None);
                            lemma_text_attachments_fail(raw@, ps, i as nat + 1, n as nat);
                            assert(resolve_mime(key@, raw@) == Resolved::Fatal(Fault::Mail));
                        }
                        return Err(FilterError::MailParseError(e));
                    },
                }
            }
            i = i + 1;
        }
    }
    let r = any_matches(patterns, &values);
    *memo = Some(parsed);
    Ok(r)
}

/// Tries one field, with its patterns, on a message.
pub fn field_matches<'a>(
    key: &String,
    patterns: &Vec<Pattern>,
    m: &'a MessageFacts,
    memo: &mut Option<MimeMessage<'a>>,
) -> (r: Result<bool, FilterError>)
    requires
        memo_ok(*old(memo), *m),
    ensures
        memo_ok(*final(memo), *m),
        gives(r, field_verdict(key@, crate::filter::sources_of(patterns@), *m)),
{
    if same_text(key.as_str(), "@tags") {
        Ok(any_matches(patterns, &m.tags))
    } else if same_text(key.as_str(), "@path") {
        Ok(any_matches(patterns, &m.paths))
    } else if same_text(key.as_str(), "@thread-tags") {
        match &m.thread_tags {
            Some(Err(t)) => Err(FilterError::NotmuchError(t.clone())),
            Some(Ok(Some(ts))) => Ok(any_matches(patterns, ts)),
            _ => Ok(false),
        }
    } else if same_text(key.as_str(), "@attachment") || same_text(key.as_str(), "@body")
        || same_text(key.as_str(), "@attachment-body") {
        match &m.content {
            Some(Err(t)) => Err(FilterError::IoError(t.clone())),
            Some(Ok(raw)) => mime_verdict(key, patterns, raw, memo),
            None => Ok(false),
        }
    } else if starts_with(key.as_str(), "@") {
        proof {
            reveal_strlit("@");
            assert(key@.take(1)[0] == '@');
            assert(key@[0] == '@');
        }
        Ok(false)
    } else {
        proof {
            reveal_strlit("@");
            assert(!(key@.len() > 0 && key@[0] == '@')) by {
                if key@.len() > 0 && key@[0] == '@' {
                    assert(key@.take(1) =~= "@"@);
                }
            }
        }
        let hs = &m.headers;
        let mut i: usize = 0;
        while i < hs.len()
            invariant
                i <= hs.len(),
                find_header(hs@.take(i as int), key@) is None,
                hs == &m.headers,
                memo_ok(*memo, *m),
                key@ != "@tags"@ && key@ != "@path"@ && key@ != "@thread-tags"@,
                !is_mime_key(key@),
                !(key@.len() > 0 && key@[0] == '@'),
            decreases hs.len() - i,
        {
            assert(hs@.take(i + 1).drop_last() =~= hs@.take(i as int));
            if hs[i].name == *key {
                proof {
                    assert(hs@.take(i + 1).last() == hs@[i as int]);
                    assert(find_header(hs@.take(i + 1), key@) == Some(i as int));
                    lemma_find_header_prefix(hs@, key@, i as int + 1);
                    assert(find_header(m.headers@, key@) == Some(i as int));
                }
                let ghost res = resolve(key@, *m);
                match &hs[i].value {
                    Err(t) => {
                        assert(res == Resolved::Fatal(Fault::Store(t@)));
                        return Err(FilterError::NotmuchError(t.clone()));
                    },
                    Ok(None) => {
                        assert(res == Resolved::Missing);
                        return Ok(false);
                    },
                    Ok(Some(v)) => {
                        assert(res == Resolved::Values(seq![v@]));
                        let mut vs: Vec<String> = Vec::new();
                        vs.push(v.clone());
                        assert(texts_of(vs@) =~= seq![v@]);
                        return Ok(any_matches(patterns, &vs));
                    },
                }
            }
            i = i + 1;
        }
        assert(hs@.take(i as int) =~= hs@);
        Ok(false)
    }
}

/// Once a part fails to decode, no longer prefix of the parts decodes.
proof fn lemma_text_attachments_fail(raw: Seq<u8>, ps: Seq<PartModel>, k: nat, n: nat)
    requires
        k <= n,
        text_attachments(raw, ps, k) is None,
    ensures
        text_attachments(raw, ps, n) is None,
    decreases n - k,
{
    if k < n {
        lemma_text_attachments_fail(raw, ps, k + 1, n);
    }
}

/// A header found in a prefix is the one found in the whole list.
proof fn lemma_find_header_prefix(hs: Seq<HeaderValue>, k: Seq<char>, j: int)
    requires
        0 <= j <= hs.len(),
        find_header(hs.take(j), k) is Some,
    ensures
        find_header(hs, k) == find_header(hs.take(j), k),
    decreases hs.len() - j,
{
    if j < hs.len() {
        assert(hs.take(j + 1).drop_last() =~= hs.take(j));
        lemma_find_header_prefix(hs, k, j + 1);
    } else {
        assert(hs.take(j) =~= hs);
    }
}

} // verus!

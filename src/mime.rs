//! A message file parsed as MIME, read part by part.
use vstd::prelude::*;

verus! {

/// `mailparse::ParsedMail`, opaque: it is only read through the wrappers
/// below.
#[verifier::external_type_specification]
#[verifier::external_body]
pub struct ExParsedMail<'a>(mailparse::ParsedMail<'a>);

/// What `mailparse::parse_mail` makes of `raw`: nothing where it fails,
/// else the media types of the top-level parts, one per part.
pub uninterp spec fn mail_structure(raw: Seq<u8>) -> Option<Seq<Seq<char>>>;

/// The Content-Disposition of the part at `path` of the message parsed
/// from `raw` (`[i]` is its `i`-th top-level part): whether it is an
/// attachment, and its `filename` parameter.
pub uninterp spec fn mail_disposition(raw: Seq<u8>, path: Seq<nat>) -> (bool, Option<Seq<char>>);

/// The decoded text of the part at `path` of the message parsed from `raw`
/// (an empty path is the message itself), or nothing where decoding fails.
pub uninterp spec fn mail_body(raw: Seq<u8>, path: Seq<nat>) -> Option<Seq<char>>;

/// A message parsed from the bytes it keeps.
pub struct MimeMessage<'a> {
    raw: &'a [u8],
    mail: mailparse::ParsedMail<'a>,
}

impl<'a> MimeMessage<'a> {
    /// The bytes the message was parsed from.
    pub closed spec fn raw(&self) -> Seq<u8> {
        self.raw@
    }
}

/// The path of a top-level part, or of the message itself.
pub open spec fn part_path(part: Option<usize>) -> Seq<nat> {
    match part {
        Some(i) => seq![i as nat],
        None => seq![],
    }
}

/// Relies on `mailparse::parse_mail`: it fails or succeeds on the bytes
/// alone.
#[verifier::external_body]
pub(crate) fn parse_mail<'a>(raw: &'a [u8]) -> (r: Result<MimeMessage<'a>, mailparse::MailParseError>)
    ensures
        r is Ok <==> mail_structure(raw@) is Some,
        r is Ok ==> r->Ok_0.raw() == raw@,
{
    match mailparse::parse_mail(raw) {
        Ok(mail) => Ok(MimeMessage { raw, mail }),
        Err(e) => Err(e),
    }
}

/// Relies on the `subparts` and `ctype.mimetype` that `mailparse::parse_mail`
/// filled in.
#[verifier::external_body]
pub(crate) fn part_types(m: &MimeMessage) -> (r: Vec<String>)
    requires
        mail_structure(m.raw()) is Some,
    ensures
        crate::value::texts_of(r@) == mail_structure(m.raw())->Some_0,
{
    m.mail.subparts.iter().map(|p| p.ctype.mimetype.clone()).collect()
}

/// Relies on `mailparse::ParsedMail::get_content_disposition`, read for
/// its disposition type and its `filename` parameter.
#[verifier::external_body]
pub(crate) fn part_disposition(m: &MimeMessage, i: usize) -> (r: (bool, Option<String>))
    requires
        mail_structure(m.raw()) is Some,
        i < mail_structure(m.raw())->Some_0.len(),
    ensures
        r.0 == mail_disposition(m.raw(), seq![i as nat]).0,
        r.1 is Some <==> mail_disposition(m.raw(), seq![i as nat]).1 is Some,
        r.1 is Some ==> r.1->Some_0@ == mail_disposition(m.raw(), seq![i as nat]).1->Some_0,
{
    let d = m.mail.subparts[i].get_content_disposition();
    let attachment = matches!(d.disposition, mailparse::DispositionType::Attachment);
    (attachment, d.params.get("filename").cloned())
}

/// Relies on `mailparse::ParsedMail::get_body`, of the message or of one
/// of its top-level parts.
#[verifier::external_body]
pub(crate) fn part_body(m: &MimeMessage, part: Option<usize>) -> (r: Result<String, mailparse::MailParseError>)
    requires
        mail_structure(m.raw()) is Some,
        part matches Some(i) ==> i < mail_structure(m.raw())->Some_0.len(),
    ensures
        r is Ok <==> mail_body(m.raw(), part_path(part)) is Some,
        r is Ok ==> r->Ok_0@ == mail_body(m.raw(), part_path(part))->Some_0,
{
    match part {
        None => m.mail.get_body(),
        Some(i) => m.mail.subparts[i].get_body(),
    }
}

} // verus!

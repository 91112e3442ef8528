use notcoal::message::{attachment_names, text_attachment, PartInfo};
use notcoal::naming::to_hex;
use notcoal::{
    compile_filters, dry_run, dry_run_message, validate_query_tag, Action, DryMessage, Filter,
    FilterError, HeaderValue, MessageFacts, MessagePass, Operations, Rule, Value,
};

fn s(x: &str) -> String {
    x.to_string()
}

fn facts() -> MessageFacts {
    MessageFacts {
        tags: Vec::new(),
        paths: Vec::new(),
        headers: Vec::new(),
        thread_tags: None,
        content: None,
    }
}

fn rule(fields: &[(&str, Value)]) -> Rule {
    let mut r = Rule::new();
    for (k, v) in fields {
        let v = match v {
            Value::Single(x) => Value::Single(x.clone()),
            Value::Multiple(x) => Value::Multiple(x.clone()),
            Value::Bool(b) => Value::Bool(*b),
        };
        r.insert(s(k), v);
    }
    r
}

fn single(x: &str) -> Value {
    Value::Single(s(x))
}

fn multiple(xs: &[&str]) -> Value {
    Value::Multiple(xs.iter().map(|x| s(x)).collect())
}

fn compiled(rules: Vec<Rule>) -> Filter {
    let mut f = Filter::new();
    f.rules = rules;
    f.compile().expect("rules compile")
}

fn with_header(name: &str, value: &str) -> MessageFacts {
    let mut m = facts();
    m.headers.push(HeaderValue { name: s(name), value: Ok(Some(s(value))) });
    m
}

const MIME: &str = "Subject: hello\n\
Content-Type: multipart/mixed; boundary=sep\n\
\n\
--sep\n\
Content-Type: text/plain\n\
\n\
the main body\n\
--sep\n\
Content-Type: text/plain\n\
Content-Disposition: attachment; filename=\"notes.txt\"\n\
\n\
attached words\n\
--sep\n\
Content-Type: application/pdf\n\
Content-Disposition: attachment; filename=\"invoice.pdf\"\n\
\n\
binary stuff\n\
--sep--\n\
";

fn with_content(raw: &str) -> MessageFacts {
    let mut m = facts();
    m.content = Some(Ok(raw.as_bytes().to_vec()));
    m
}

#[test]
fn invalid_pattern_fails_compile() {
    let mut f = Filter::new();
    f.rules = vec![rule(&[("subject", single("(unclosed"))])];
    assert!(matches!(f.compile(), Err(FilterError::RegexError(_))));
}

#[test]
fn invalid_pattern_in_list_fails_compile() {
    let mut f = Filter::new();
    f.rules = vec![rule(&[("subject", multiple(&["fine", "[bad"]))])];
    assert!(matches!(f.compile(), Err(FilterError::RegexError(_))));
}

#[test]
fn flag_in_rule_is_unsupported() {
    let mut f = Filter::new();
    f.rules = vec![rule(&[("from", Value::Bool(true))])];
    assert!(matches!(f.compile(), Err(FilterError::UnsupportedValue(_))));
}

#[test]
fn set_compiles_all_or_nothing() {
    let mut good = Filter::new();
    good.rules = vec![rule(&[("from", single("a"))])];
    let mut bad = Filter::new();
    bad.rules = vec![rule(&[("from", single("("))])];
    assert!(matches!(compile_filters(vec![good, bad]), Err(FilterError::RegexError(_))));

    let mut one = Filter::new();
    one.rules = vec![rule(&[("from", single("a"))])];
    let mut two = Filter::new();
    two.rules = vec![rule(&[("to", single("b"))]), rule(&[("cc", single("c"))])];
    let all = compile_filters(vec![one, two]).expect("both compile");
    assert_eq!(all.len(), 2);
    assert_eq!(all[0].re.len(), 1);
    assert_eq!(all[1].re.len(), 2);
}

#[test]
fn uncompiled_filter_refuses_to_match() {
    let mut f = Filter::new();
    f.rules = vec![rule(&[("from", single("a"))])];
    assert!(matches!(f.is_match(&facts()), Err(FilterError::RegexUncompiled(_))));
}

#[test]
fn tags_field_matches_any_tag() {
    let mut m = facts();
    m.tags = vec![s("inbox"), s("work")];
    let work = compiled(vec![rule(&[("@tags", single("^work$"))])]);
    let play = compiled(vec![rule(&[("@tags", single("^play$"))])]);
    assert!(work.is_match(&m).unwrap());
    assert!(!play.is_match(&m).unwrap());
}

#[test]
fn several_patterns_are_alternatives() {
    let f = compiled(vec![rule(&[("subject", multiple(&["^a$", "^b$"]))])]);
    assert!(f.is_match(&with_header("subject", "a")).unwrap());
    assert!(f.is_match(&with_header("subject", "b")).unwrap());
    assert!(!f.is_match(&with_header("subject", "c")).unwrap());
}

#[test]
fn rules_combine_with_or() {
    let f = compiled(vec![rule(&[("from", single("x"))]), rule(&[("to", single("y"))])]);
    let mut m = facts();
    m.headers.push(HeaderValue { name: s("from"), value: Ok(Some(s("nobody"))) });
    m.headers.push(HeaderValue { name: s("to"), value: Ok(Some(s("y@host"))) });
    assert!(f.is_match(&m).unwrap());
    let mut n = facts();
    n.headers.push(HeaderValue { name: s("from"), value: Ok(Some(s("nobody"))) });
    n.headers.push(HeaderValue { name: s("to"), value: Ok(Some(s("z"))) });
    assert!(!f.is_match(&n).unwrap());
}

#[test]
fn fields_combine_with_and() {
    let f = compiled(vec![rule(&[("from", single("x")), ("to", single("y"))])]);
    let mut both = facts();
    both.headers.push(HeaderValue { name: s("from"), value: Ok(Some(s("x"))) });
    both.headers.push(HeaderValue { name: s("to"), value: Ok(Some(s("y"))) });
    assert!(f.is_match(&both).unwrap());
    let one = with_header("from", "x");
    assert!(!f.is_match(&one).unwrap());
}

#[test]
fn missing_header_does_not_match() {
    let f = compiled(vec![rule(&[("list-id", single(".*"))])]);
    assert!(!f.is_match(&facts()).unwrap());
    let mut m = facts();
    m.headers.push(HeaderValue { name: s("list-id"), value: Ok(None) });
    assert!(!f.is_match(&m).unwrap());
}

#[test]
fn header_lookup_failure_is_fatal() {
    let f = compiled(vec![rule(&[("from", single("x"))])]);
    let mut m = facts();
    m.headers.push(HeaderValue { name: s("from"), value: Err(s("store broke")) });
    match f.is_match(&m) {
        Err(FilterError::NotmuchError(t)) => assert_eq!(t, "store broke"),
        other => panic!("unexpected {:?}", other),
    }
}

#[test]
fn thread_tags_match_and_missing_thread_fails() {
    let f = compiled(vec![rule(&[("@thread-tags", single("^mute$"))])]);
    let mut m = facts();
    m.thread_tags = Some(Ok(Some(vec![s("inbox"), s("mute")])));
    assert!(f.is_match(&m).unwrap());
    m.thread_tags = Some(Ok(None));
    assert!(!f.is_match(&m).unwrap());
    m.thread_tags = Some(Err(s("no query")));
    assert!(matches!(f.is_match(&m), Err(FilterError::NotmuchError(_))));
}

#[test]
fn path_field_matches_file_names() {
    let f = compiled(vec![rule(&[("@path", single("/spam/"))])]);
    let mut m = facts();
    m.paths = vec![s("/mail/inbox/new/1"), s("/mail/spam/cur/1")];
    assert!(f.is_match(&m).unwrap());
    m.paths = vec![s("/mail/inbox/new/1")];
    assert!(!f.is_match(&m).unwrap());
}

#[test]
fn unknown_virtual_field_does_not_match() {
    let f = compiled(vec![rule(&[("@nothing", single(".*"))])]);
    assert!(!f.is_match(&facts()).unwrap());
}

#[test]
fn body_field_reads_first_part() {
    let f = compiled(vec![rule(&[("@body", single("main body"))])]);
    assert!(f.is_match(&with_content(MIME)).unwrap());
    let g = compiled(vec![rule(&[("@body", single("attached words"))])]);
    assert!(!g.is_match(&with_content(MIME)).unwrap());
}

#[test]
fn body_of_single_part_message() {
    let f = compiled(vec![rule(&[("@body", single("^just text"))])]);
    assert!(f.is_match(&with_content("Subject: x\n\njust text\n")).unwrap());
}

#[test]
fn attachment_field_reads_file_names() {
    let f = compiled(vec![rule(&[("@attachment", single(r"\.pdf$"))])]);
    assert!(f.is_match(&with_content(MIME)).unwrap());
    let g = compiled(vec![rule(&[("@attachment", single(r"\.doc$"))])]);
    assert!(!g.is_match(&with_content(MIME)).unwrap());
}

#[test]
fn attachment_body_reads_text_attachments_only() {
    let f = compiled(vec![rule(&[("@attachment-body", single("attached words"))])]);
    assert!(f.is_match(&with_content(MIME)).unwrap());
    let pdf = compiled(vec![rule(&[("@attachment-body", single("binary stuff"))])]);
    assert!(!pdf.is_match(&with_content(MIME)).unwrap());
    let main = compiled(vec![rule(&[("@attachment-body", single("main body"))])]);
    assert!(!main.is_match(&with_content(MIME)).unwrap());
}

#[test]
fn several_body_fields_in_one_rule() {
    let f = compiled(vec![rule(&[
        ("@body", single("main")),
        ("@attachment", single("notes")),
        ("@attachment-body", single("words")),
    ])]);
    assert!(f.is_match(&with_content(MIME)).unwrap());
}

#[test]
fn unreadable_file_is_fatal() {
    let f = compiled(vec![rule(&[("@body", single("x"))])]);
    let mut m = facts();
    m.content = Some(Err(s("permission denied")));
    match f.is_match(&m) {
        Err(FilterError::IoError(t)) => assert_eq!(t, "permission denied"),
        other => panic!("unexpected {:?}", other),
    }
}

#[test]
fn matching_rule_ends_search_before_failing_field() {
    let f = compiled(vec![rule(&[("@tags", single("inbox"))]), rule(&[("@body", single("x"))])]);
    let mut m = facts();
    m.tags = vec![s("inbox")];
    m.content = Some(Err(s("gone")));
    assert!(f.is_match(&m).unwrap());
}

#[test]
fn add_flag_is_refused() {
    let mut op = Operations::default();
    op.rm = Some(single("inbox"));
    op.add = Some(Value::Bool(true));
    let plan = op.plan(&s("/m/1"), &s("id1"), &s("f"));
    assert_eq!(plan.len(), 2);
    assert!(matches!(&plan[0], Action::RemoveTag(t) if t == "inbox"));
    assert!(matches!(&plan[1], Action::Fail(FilterError::UnsupportedValue(_))));
}

#[test]
fn remove_flag_true_clears_all_tags() {
    let mut op = Operations::default();
    op.rm = Some(Value::Bool(true));
    op.add = Some(single("seen"));
    let plan = op.plan(&s("/m/1"), &s("id1"), &s("f"));
    assert_eq!(plan.len(), 2);
    assert!(matches!(&plan[0], Action::RemoveAllTags));
    assert!(matches!(&plan[1], Action::AddTag(t) if t == "seen"));
}

#[test]
fn remove_flag_false_does_nothing() {
    let mut op = Operations::default();
    op.rm = Some(Value::Bool(false));
    assert!(op.plan(&s("/m/1"), &s("id1"), &s("f")).is_empty());
}

#[test]
fn tags_are_removed_and_added_in_order() {
    let mut op = Operations::default();
    op.rm = Some(multiple(&["inbox", "unread"]));
    op.add = Some(multiple(&["money", "bank"]));
    let plan = op.plan(&s("/m/1"), &s("id1"), &s("f"));
    assert_eq!(plan.len(), 4);
    assert!(matches!(&plan[0], Action::RemoveTag(t) if t == "inbox"));
    assert!(matches!(&plan[1], Action::RemoveTag(t) if t == "unread"));
    assert!(matches!(&plan[2], Action::AddTag(t) if t == "money"));
    assert!(matches!(&plan[3], Action::AddTag(t) if t == "bank"));
}

#[test]
fn program_runs_before_deletion_with_old_path() {
    let mut op = Operations::default();
    op.run = Some(vec![s("notify"), s("--quiet")]);
    op.del = Some(true);
    assert!(op.deletes());
    let plan = op.plan(&s("/mail/new/42"), &s("abc@host"), &s("money"));
    assert_eq!(plan.len(), 3);
    match &plan[0] {
        Action::Spawn(c) => {
            assert_eq!(c.program, "notify");
            assert_eq!(c.args, vec![s("--quiet")]);
            assert_eq!(
                c.env,
                vec![
                    (s("NOTCOAL_FILE_NAME"), s("/mail/new/42")),
                    (s("NOTCOAL_MSG_ID"), s("abc@host")),
                    (s("NOTCOAL_FILTER_NAME"), s("money")),
                ]
            );
        }
        other => panic!("unexpected {:?}", other),
    }
    assert!(matches!(&plan[1], Action::DeleteFile(p) if p == "/mail/new/42"));
    assert!(matches!(&plan[2], Action::Unindex(p) if p == "/mail/new/42"));
}

#[test]
fn empty_program_is_refused() {
    let mut op = Operations::default();
    op.run = Some(Vec::new());
    op.del = Some(true);
    let plan = op.plan(&s("/m/1"), &s("id1"), &s("f"));
    assert_eq!(plan.len(), 1);
    assert!(matches!(&plan[0], Action::Fail(FilterError::UnsupportedValue(_))));
}

#[test]
fn query_tag_with_space_or_quote_is_refused() {
    assert!(matches!(validate_query_tag("new tag"), Err(FilterError::UnsupportedQuery(_))));
    assert!(matches!(validate_query_tag("na\"me"), Err(FilterError::UnsupportedQuery(_))));
    assert!(matches!(validate_query_tag("it's"), Err(FilterError::UnsupportedQuery(_))));
    assert!(matches!(validate_query_tag("a\tb"), Err(FilterError::UnsupportedQuery(_))));
    assert!(matches!(validate_query_tag(""), Err(FilterError::UnsupportedQuery(_))));
}

#[test]
fn query_tag_becomes_query() {
    assert_eq!(validate_query_tag("new").unwrap(), "tag:new");
}

#[test]
fn derived_names_ignore_field_order() {
    let a = vec![rule(&[("from", single("x")), ("subject", multiple(&["p", "q"]))])];
    let b = vec![rule(&[("subject", multiple(&["p", "q"])), ("from", single("x"))])];
    let mut fa = Filter::new();
    fa.rules = a;
    let mut fb = Filter::new();
    fb.rules = b;
    assert_eq!(fa.name(), fb.name());
    let mut fc = Filter::new();
    fc.rules = vec![rule(&[("from", single("y")), ("subject", multiple(&["p", "q"]))])];
    assert_ne!(fa.name(), fc.name());
    assert!(fa.name().chars().all(|c| c.is_ascii_hexdigit()));
}

#[test]
fn explicit_name_wins() {
    let mut f = Filter::new();
    f.rules = vec![rule(&[("from", single("x"))])];
    f.set_name("money");
    assert_eq!(f.name(), "money");
}

#[test]
fn rule_insert_replaces_value() {
    let mut r = Rule::new();
    r.insert(s("b"), single("1"));
    r.insert(s("a"), single("2"));
    r.insert(s("b"), single("3"));
    let keys: Vec<&str> = r.fields().iter().map(|f| f.key.as_str()).collect();
    assert_eq!(keys, vec!["a", "b"]);
    assert!(matches!(&r.fields()[1].value, Value::Single(v) if v == "3"));
}

#[test]
fn hex_is_exact() {
    assert_eq!(to_hex(0), "0");
    assert_eq!(to_hex(255), "ff");
    assert_eq!(to_hex(4096), "1000");
    assert_eq!(to_hex(u64::MAX), "ffffffffffffffff");
}

#[test]
fn pass_stops_at_deletion() {
    let mut p = MessagePass::new(3);
    assert_eq!(p.next_filter(), Some(0));
    p.record(true, false);
    assert_eq!(p.next_filter(), Some(1));
    p.record(true, true);
    assert_eq!(p.next_filter(), None);
    assert_eq!(p.matches(), 2);
    assert!(!p.clears_tag());
}

#[test]
fn pass_clears_tag_of_survivor() {
    let mut p = MessagePass::new(2);
    p.record(false, false);
    p.record(true, false);
    assert_eq!(p.next_filter(), None);
    assert_eq!(p.matches(), 1);
    assert!(p.clears_tag());
    let none = MessagePass::new(0);
    assert_eq!(none.next_filter(), None);
    assert!(none.clears_tag());
}

#[test]
fn dry_run_reports_each_match() {
    let mut a = Filter::new();
    a.rules = vec![rule(&[("@tags", single("^new$"))])];
    a.set_name("fresh");
    let mut b = Filter::new();
    b.rules = vec![rule(&[("subject", single("invoice"))])];
    b.set_name("bills");
    let filters = compile_filters(vec![a, b]).unwrap();
    let mut m1 = with_header("subject", "your invoice");
    m1.tags = vec![s("new")];
    let mut m2 = facts();
    m2.tags = vec![s("new")];
    let msgs = vec![
        DryMessage { id: s("id1"), facts: m1 },
        DryMessage { id: s("id2"), facts: m2 },
    ];
    let (n, lines) = dry_run(&filters, &msgs).unwrap();
    assert_eq!(n, 3);
    assert_eq!(lines, vec![s("id1: fresh"), s("id1: bills"), s("id2: fresh")]);
    let again = dry_run(&filters, &msgs).unwrap();
    assert_eq!(again, (n, lines));
}

#[test]
fn dry_run_without_messages_or_filters() {
    let filters: Vec<Filter> = Vec::new();
    assert_eq!(dry_run(&filters, &Vec::new()).unwrap(), (0, Vec::new()));
    let msgs = vec![DryMessage { id: s("id1"), facts: facts() }];
    assert_eq!(dry_run(&filters, &msgs).unwrap(), (0, Vec::new()));
    assert_eq!(dry_run_message(&filters, &s("id1"), &facts()).unwrap(), Vec::<String>::new());
}

#[test]
fn dry_run_stops_on_failure() {
    let f = compiled(vec![rule(&[("@body", single("x"))])]);
    let mut m = facts();
    m.content = Some(Err(s("gone")));
    let msgs = vec![DryMessage { id: s("id1"), facts: m }];
    assert!(matches!(dry_run(&vec![f], &msgs), Err(FilterError::IoError(_))));
}

#[test]
fn plan_only_when_matching() {
    let mut f = Filter::new();
    f.rules = vec![rule(&[("@tags", single("^new$"))])];
    f.op.add = Some(single("seen"));
    f.set_name("mark");
    let f = f.compile().unwrap();
    let mut m = facts();
    m.tags = vec![s("new")];
    let plan = f.plan_if_match(&m, &s("/m/1"), &s("id1")).unwrap().unwrap();
    assert!(matches!(&plan[0], Action::AddTag(t) if t == "seen"));
    m.tags = vec![s("old")];
    assert!(f.plan_if_match(&m, &s("/m/1"), &s("id1")).unwrap().is_none());
}

#[test]
fn wants_lists_what_rules_read() {
    let f = compiled(vec![
        rule(&[("from", single("a")), ("@tags", single("b"))]),
        rule(&[("@thread-tags", single("c")), ("@body", single("d")), ("subject", single("e"))]),
    ]);
    let w = f.wants();
    assert!(w.thread_tags);
    assert!(w.content);
    let mut hs = w.headers.clone();
    hs.sort();
    assert_eq!(hs, vec![s("from"), s("subject")]);
    let g = compiled(vec![rule(&[("@tags", single("b"))])]);
    let wg = g.wants();
    assert!(!wg.thread_tags && !wg.content && wg.headers.is_empty());
}

#[test]
fn undecodable_body_is_fatal() {
    let f = compiled(vec![rule(&[("@body", single("x"))])]);
    let m = with_content("Content-Transfer-Encoding: base64\n\n@@@@\n");
    assert!(matches!(f.is_match(&m), Err(FilterError::MailParseError(_))));
}

#[test]
fn base64_body_is_decoded() {
    let f = compiled(vec![rule(&[("@body", single("^hello world$"))])]);
    let m = with_content("Content-Transfer-Encoding: base64\n\naGVsbG8gd29ybGQ=\n");
    assert!(f.is_match(&m).unwrap());
}

fn part(attachment: bool, filename: Option<&str>, media_type: &str) -> PartInfo {
    PartInfo { attachment, filename: filename.map(s), media_type: s(media_type) }
}

#[test]
fn attachment_names_keep_named_attachments_only() {
    let parts = vec![
        part(false, Some("inline.txt"), "text/plain"),
        part(true, Some("a.pdf"), "application/pdf"),
        part(true, None, "image/png"),
        part(true, Some("b.txt"), "text/plain"),
    ];
    assert_eq!(attachment_names(&parts), vec![s("a.pdf"), s("b.txt")]);
    assert!(attachment_names(&Vec::new()).is_empty());
}

#[test]
fn text_attachment_needs_both() {
    assert!(text_attachment(&part(true, None, "text/html")));
    assert!(!text_attachment(&part(false, None, "text/plain")));
    assert!(!text_attachment(&part(true, Some("x"), "application/text")));
}

#[test]
fn query_tag_with_unicode_whitespace_is_refused() {
    for tag in ["a\u{3000}b", "a\u{a0}b", "a\nb", "a\u{2009}b", "a\u{85}b", "a\u{2028}"] {
        assert!(matches!(validate_query_tag(tag), Err(FilterError::UnsupportedQuery(_))), "{:?}", tag);
    }
    assert_eq!(validate_query_tag("\u{fc}ber").unwrap(), "tag:\u{fc}ber");
    assert_eq!(validate_query_tag("a\u{200b}b").unwrap(), "tag:a\u{200b}b");
}

#[test]
fn query_tag_check_agrees_with_std_whitespace() {
    for c in (0u32..=0x10ffff).filter_map(char::from_u32) {
        let tag = format!("a{}b", c);
        let refused = c.is_whitespace() || c == '"' || c == '\'';
        assert_eq!(validate_query_tag(&tag).is_err(), refused, "{:?}", c);
    }
}

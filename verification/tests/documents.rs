use ironclaw::digest::{content_sha256, make_id};
use ironclaw::json::{Json, JsonNumber};
use ironclaw::knowledge_wiki::chunks::{chunk_markdown, push_chunk, split_long_block};
use ironclaw::knowledge_wiki::frontmatter::{
    frontmatter_i32, frontmatter_scalar, frontmatter_string_list, parse_frontmatter,
    parse_simple_yaml, scalar_value, FrontMatter,
};
use ironclaw::knowledge_wiki::paths::{
    is_indexable_wiki_path, is_indexable_wiki_path_under, normalize_path, normalize_wiki_root,
};
use ironclaw::knowledge_wiki::relations::{
    parse_relation_card, parse_relation_card_under, parse_sources, relation_id, RelationSource,
};
use ironclaw::knowledge_wiki::store::{
    hit_from_row, like_pattern, row_limit, status_counts, SearchRow,
};
use ironclaw::numerals::{parse_i32, parse_i64, write_i64, write_u64};
use ironclaw::timestamp::{format_system_time, Timestamp, FIRST_SECOND, LAST_SECOND};

fn chars(s: &str) -> Vec<char> {
    s.chars().collect()
}

fn scalar(s: &str) -> Json {
    scalar_value(&chars(s))
}

fn decimal(s: &str) -> Json {
    Json::Number(JsonNumber::Decimal(s.to_string()))
}

fn text(s: &str) -> Json {
    Json::Text(s.to_string())
}

#[test]
fn relation_card_parses_spo_and_sources() {
    let content = r#"---
subject: org:acme
predicate: purchased
object: product:ironclaw
confidence: 0.82
status: proposed
schema_version: 2
sources:
  - path: wiki/sources/email/acme.md
    chunk_id: mw_abc
    quote: "Acme purchased licenses"
---
# Acme purchased IronClaw
"#;
    let card = parse_relation_card("wiki/relations/acme.md", content)
        .unwrap()
        .unwrap();
    assert_eq!(card.subject, "org:acme");
    assert_eq!(card.predicate, "purchased");
    assert_eq!(card.object, "product:ironclaw");
    assert_eq!(card.sources.len(), 1);
    assert_eq!(card.schema_version, Some(2));
    assert_eq!(card.confidence, Some("0.82".to_string()));
    assert_eq!(card.status, "proposed");
    assert_eq!(
        card.sources[0],
        RelationSource {
            path: "wiki/sources/email/acme.md".to_string(),
            chunk_id: Some("mw_abc".to_string()),
            quote: Some("Acme purchased licenses".to_string()),
        }
    );
}

#[test]
fn indexable_paths_are_scoped_to_wiki() {
    assert!(is_indexable_wiki_path("wiki/notes/a.md"));
    assert!(is_indexable_wiki_path("wiki/relations/a.md"));
    assert!(!is_indexable_wiki_path("MEMORY.md"));
    assert!(!is_indexable_wiki_path("wiki/../AGENTS.md"));
}

#[test]
fn indexable_paths_support_custom_root() {
    assert!(is_indexable_wiki_path_under(
        "knowledge/wiki/notes/a.md",
        "knowledge/wiki"
    ));
    assert!(parse_relation_card_under(
        "knowledge/wiki/relations/acme.md",
        "---\nsubject: a\npredicate: b\nobject: c\n---\n",
        "knowledge/wiki"
    )
    .unwrap()
    .is_some());
    assert!(!is_indexable_wiki_path_under(
        "wiki/notes/a.md",
        "knowledge/wiki"
    ));
}

#[test]
fn every_indexed_directory_is_accepted() {
    for dir in [
        "notes",
        "sources",
        "summaries",
        "entities",
        "relations",
        "schema/entities",
        "schema/relations",
    ] {
        assert!(is_indexable_wiki_path(&format!("wiki/{dir}/a.md")));
        assert!(!is_indexable_wiki_path(&format!("wiki/{dir}/a.txt")));
    }
    assert!(!is_indexable_wiki_path("wiki/schema/a.md"));
    assert!(!is_indexable_wiki_path("wiki/notes.md"));
    assert!(is_indexable_wiki_path("  /wiki\\notes\\a.md "));
}

#[test]
fn an_unusable_root_falls_back_to_the_default_one() {
    assert!(is_indexable_wiki_path_under("wiki/notes/a.md", "../x"));
    assert!(is_indexable_wiki_path_under("wiki/notes/a.md", ""));
}

#[test]
fn paths_are_brought_into_normal_form() {
    assert_eq!(normalize_path(" //a\\b/c "), "a/b/c");
    assert_eq!(normalize_path(""), "");
}

#[test]
fn roots_are_checked() {
    assert_eq!(normalize_wiki_root("wiki"), Ok("wiki/".to_string()));
    assert_eq!(normalize_wiki_root(" /a/b// "), Ok("a/b/".to_string()));
    assert_eq!(
        normalize_wiki_root("  "),
        Err("wiki_root cannot be empty".to_string())
    );
    assert_eq!(
        normalize_wiki_root("a/../b"),
        Err("wiki_root must be a relative workspace path without `..`".to_string())
    );
    assert_eq!(
        normalize_wiki_root("\\a"),
        Err("wiki_root must be a relative workspace path without `..`".to_string())
    );
}

#[test]
fn roots_are_stable() {
    let once = normalize_wiki_root(" /knowledge/wiki// ").unwrap();
    assert_eq!(normalize_wiki_root(&once).unwrap(), once);
}

#[test]
fn digests_are_sha256_in_hexadecimal() {
    assert_eq!(
        content_sha256("abc"),
        "ba7816bf8f01cfea414140de5dae2223b00361a396177a9cb410ff61f20015ad"
    );
    assert_eq!(
        content_sha256(""),
        "e3b0c44298fc1c149afbf4c8996fb92427ae41e4649b934ca495991b7852b855"
    );
    assert_eq!(make_id("x_", "abc"), "x_ba7816bf8f01cfea414140de");
}

#[test]
fn relation_ids_ignore_case_and_outer_space() {
    let id = relation_id("Org:Acme ", " PURCHASED", "product:É");
    assert_eq!(id, relation_id("org:acme", "purchased", "product:é"));
    assert!(id.starts_with("rel_"));
    assert_eq!(id.len(), 28);
    assert_eq!(
        id,
        format!("rel_{}", &content_sha256("org:acme\0purchased\0product:é")[..24])
    );
    assert_ne!(id, relation_id("org:acme", "sold", "product:é"));
}

#[test]
fn front_matter_is_cut_off() {
    let (fm, body) = parse_frontmatter("---\na: 1\n---\nbody\n");
    assert_eq!(fm.fields, vec![("a".to_string(), Json::from_i64(1))]);
    assert_eq!(body, "body\n");
    for plain in ["no front matter", "---\na: 1\n", "--- \na: 1\n---\nx", ""] {
        let (fm, body) = parse_frontmatter(plain);
        assert_eq!(fm, FrontMatter::default());
        assert_eq!(body, plain);
    }
}

#[test]
fn scalars_are_told_apart() {
    assert_eq!(scalar(" TRUE "), Json::Bool(true));
    assert_eq!(scalar("false"), Json::Bool(false));
    assert_eq!(scalar("42"), Json::from_i64(42));
    assert_eq!(scalar("+7"), Json::from_i64(7));
    assert_eq!(scalar("-9223372036854775808"), Json::from_i64(i64::MIN));
    assert_eq!(scalar("0.82"), decimal("0.82"));
    assert_eq!(scalar("1."), decimal("1.0"));
    assert_eq!(scalar(".5"), decimal("0.5"));
    assert_eq!(scalar("-0"), Json::from_i64(0));
    assert_eq!(scalar("-0.0"), decimal("-0.0"));
    assert_eq!(scalar("1e3"), decimal("1000.0"));
    assert!(matches!(
        scalar("9223372036854775808"),
        Json::Number(JsonNumber::Decimal(t)) if t.parse::<f64>() == Ok(9223372036854775808.0)
    ));
    assert_eq!(scalar("1e400"), Json::Null);
    assert_eq!(scalar("1e99999999999999999999"), Json::Null);
    assert_eq!(scalar("nan"), Json::Null);
    assert_eq!(scalar("-Infinity"), Json::Null);
    assert_eq!(scalar("inf"), Json::Null);
    assert_eq!(scalar("e5"), text("e5"));
    assert_eq!(scalar("."), text("."));
    assert_eq!(scalar("1_000"), text("1_000"));
    assert_eq!(scalar("plain text"), text("plain text"));
    assert_eq!(scalar("\"quoted\""), text("quoted"));
    assert_eq!(scalar("'quoted'"), text("quoted"));
    assert_eq!(scalar("\"'both'\""), text("both"));
    assert_eq!(scalar("'\"both\"'"), text("\"both\""));
    assert_eq!(scalar("\""), text("\""));
    assert_eq!(scalar("\"open"), text("\"open"));
}

#[test]
fn floats_read_as_the_standard_library_reads_them() {
    for s in [
        "0.1", "123.456", "1e-7", "5e-324", "1.7976931348623157e308", "2.2250738585072014e-308",
        "9007199254740993.0", "0.30000000000000004", "1e22", "1e23", "+1.5E+2", "00.5", "-1e-400",
        "3.0e0", "123456789012345678901234567890", "0e99999999999999999999", "0.000e99999999999999999999",
        "1e-99999999999999999999", "-.0e5",
    ] {
        let expected = s.parse::<f64>().unwrap();
        match scalar(s) {
            Json::Number(JsonNumber::Decimal(t)) => {
                let got = t.parse::<f64>().unwrap();
                assert_eq!(got.to_bits(), expected.to_bits(), "{s} {t}");
            }
            other => panic!("{s} {other:?}"),
        }
    }
}

#[test]
fn integers_are_read_back() {
    for n in [0, 7, -7, 10, 1234567890123, i64::MAX, i64::MIN] {
        let text = write_i64(n);
        assert_eq!(text, n.to_string());
        assert_eq!(parse_i64(&chars(&text)), Some(n));
    }
    assert_eq!(write_u64(u64::MAX), u64::MAX.to_string());
    assert_eq!(parse_i64(&chars("9223372036854775808")), None);
    assert_eq!(parse_i64(&chars("+")), None);
    assert_eq!(parse_i32(&chars("-2147483648")), Some(i32::MIN));
    assert_eq!(parse_i32(&chars("2147483648")), None);
}

#[test]
fn simple_yaml_knows_lists_and_objects() {
    let block = "# comment\n\ntitle: A: b\nkeywords:\n  - one\n  - \n  - two\nsources:\n  - path: p\n    quote: q\n    no colon\n  - x\n indented: 1\nno colon\nempty:\ntitle: Again";
    let got = parse_simple_yaml(&chars(block));
    let expected = vec![
        ("title".to_string(), text("Again")),
        (
            "keywords".to_string(),
            Json::Array(vec![text("one"), text("two")]),
        ),
        (
            "sources".to_string(),
            Json::Array(vec![
                Json::Object(vec![
                    ("path".to_string(), text("p")),
                    ("quote".to_string(), text("q")),
                ]),
                text("x"),
            ]),
        ),
        ("empty".to_string(), Json::Array(vec![])),
    ];
    assert_eq!(got, expected);
}

#[test]
fn fields_are_read_as_text_numbers_and_words() {
    let (fm, _) = parse_frontmatter(
        "---\nn: 12\nf: 1.50\nb: true\nt: ' x '\nlist:\n  - a\n  - 7\n  - ' '\nwords: a, b ,, c\nbig: 3000000000\nplus: '+4'\n---\n",
    );
    assert_eq!(frontmatter_scalar(&fm, "n"), Some("12".to_string()));
    assert_eq!(frontmatter_scalar(&fm, "f"), Some("1.5".to_string()));
    assert_eq!(frontmatter_scalar(&fm, "b"), Some("true".to_string()));
    assert_eq!(frontmatter_scalar(&fm, "t"), Some(" x ".to_string()));
    assert_eq!(frontmatter_scalar(&fm, "list"), None);
    assert_eq!(frontmatter_scalar(&fm, "missing"), None);
    assert_eq!(frontmatter_i32(&fm, "n"), Some(12));
    assert_eq!(frontmatter_i32(&fm, "f"), None);
    assert_eq!(frontmatter_i32(&fm, "big"), None);
    assert_eq!(frontmatter_i32(&fm, "plus"), Some(4));
    assert_eq!(frontmatter_string_list(&fm, "list"), vec!["a".to_string()]);
    assert_eq!(
        frontmatter_string_list(&fm, "words"),
        vec!["a".to_string(), "b".to_string(), "c".to_string()]
    );
    assert!(frontmatter_string_list(&fm, "n").is_empty());
}

#[test]
fn bracketed_lists_are_text() {
    let (fm, _) = parse_frontmatter("---\nkeywords: [report]\n---\n");
    assert_eq!(
        frontmatter_string_list(&fm, "keywords"),
        vec!["[report]".to_string()]
    );
}

#[test]
fn cards_without_their_fields_are_no_cards() {
    let path = "wiki/relations/a.md";
    assert_eq!(
        parse_relation_card("wiki/notes/a.md", "---\nsubject: a\npredicate: b\nobject: c\n---\n"),
        Ok(None)
    );
    assert_eq!(parse_relation_card(path, "no front matter"), Ok(None));
    assert_eq!(
        parse_relation_card(path, "---\nsubject: a\npredicate: b\n---\n"),
        Ok(None)
    );
    assert_eq!(
        parse_relation_card(path, "---\nsubject: ' '\npredicate: b\nobject: c\n---\n"),
        Err("relation card wiki/relations/a.md has an empty subject/predicate/object".to_string())
    );
    assert_eq!(
        parse_relation_card_under(path, "", ".."),
        Err("wiki_root must be a relative workspace path without `..`".to_string())
    );
    let card = parse_relation_card(path, "---\nsubject: a\npredicate: 1\nobject: true\n---\n")
        .unwrap()
        .unwrap();
    assert_eq!(card.predicate, "1");
    assert_eq!(card.object, "true");
    assert_eq!(card.status, "proposed");
    assert_eq!(card.confidence, None);
    assert_eq!(card.schema_version, None);
}

#[test]
fn sources_without_a_path_are_left_out() {
    let (fm, _) = parse_frontmatter("---\nsources:\n  - path: a\n  - quote: b\n  - c\n---\n");
    assert_eq!(
        parse_sources(&fm),
        vec![RelationSource {
            path: "a".to_string(),
            chunk_id: None,
            quote: None,
        }]
    );
}

#[test]
fn chunks_are_packed_and_numbered() {
    let a = "a".repeat(150);
    let b = "b".repeat(100);
    let c = "c".repeat(10);
    let body = format!("---\nx: 1\n---\n{a}\n\n \n\n{b}\n\n{c}\n");
    let chunks = chunk_markdown("p.md", &body, 10);
    assert_eq!(chunks.len(), 2);
    assert_eq!(chunks[0].2, format!("{a}\n\n{b}"));
    assert_eq!(chunks[1].2, c);
    for (i, chunk) in chunks.iter().enumerate() {
        assert_eq!(chunk.1, i as i32);
        let material = format!("p.md\0{i}\0{}", content_sha256(&chunk.2));
        assert_eq!(
            chunk.0,
            format!("mw_{}", &content_sha256(&material)[..24])
        );
    }
    assert!(chunk_markdown("p.md", "\n\n \n", 6000).is_empty());
}

#[test]
fn identifiers_are_a_prefix_and_hexadecimal_digits() {
    let formed = |id: &str, prefix: &str| {
        id.len() == prefix.len() + 24
            && id.starts_with(prefix)
            && id[prefix.len()..]
                .chars()
                .all(|c| matches!(c, '0'..='9' | 'a'..='f'))
    };
    let chunks = chunk_markdown("p.md", &"x\n\n".repeat(600), 256);
    assert!(chunks.len() > 2);
    for chunk in &chunks {
        assert!(formed(&chunk.0, "mw_"), "{}", chunk.0);
    }
    assert!(formed(&relation_id("a", "b", "c"), "rel_"));
}

#[test]
fn long_blocks_are_split_by_bytes() {
    let block = "é".repeat(200);
    let pieces = split_long_block(&chars(&block), 257);
    assert_eq!(pieces.len(), 2);
    assert_eq!(pieces[0].len(), 258);
    assert_eq!(pieces.concat(), block);
    let chunks = chunk_markdown("p.md", &format!("head\n\n{block}\n\ntail"), 256);
    let texts: Vec<&str> = chunks.iter().map(|c| c.2.as_str()).collect();
    assert_eq!(texts.len(), 4);
    assert_eq!(texts[0], "head");
    assert_eq!(texts[1].len(), 256);
    assert_eq!(texts[2].len(), 144);
    assert_eq!(texts[3], "tail");
    assert_eq!(format!("{}{}", texts[1], texts[2]), block);
}

#[test]
fn chunks_keep_the_ink_of_the_body() {
    let body = "one two\n\n\n\nthree\n\n  four  ";
    let chunks = chunk_markdown("p.md", body, 256);
    let ink = |s: &str| -> String { s.chars().filter(|c| !c.is_whitespace()).collect() };
    let joined: String = chunks.iter().map(|c| c.2.clone()).collect();
    assert_eq!(ink(&joined), ink(body));
}

#[test]
fn a_chunk_is_put_behind_the_others() {
    let mut chunks = Vec::new();
    push_chunk("p", &mut chunks, "x".to_string());
    push_chunk("p", &mut chunks, "x".to_string());
    assert_eq!(chunks[0].1, 0);
    assert_eq!(chunks[1].1, 1);
    assert_ne!(chunks[0].0, chunks[1].0);
}

#[test]
fn rows_become_results() {
    assert_eq!(like_pattern("a%b"), "%a%b%");
    assert_eq!(row_limit(7), 7);
    assert_eq!(row_limit(1000), 100);
    let row = SearchRow {
        kind: "chunk".to_string(),
        path: "p".to_string(),
        chunk_id: None,
        relation_id: None,
        subject: None,
        predicate: None,
        object: None,
        status: None,
        doc_type: None,
        priority: Some(4294967301),
        max_inject_chars: Some(-1),
        preview: "x".to_string(),
        score_bits: 1.5f32.to_bits(),
        indexed_at: Timestamp { secs: 1, nanos: 2 },
    };
    let hit = hit_from_row(row);
    assert_eq!(hit.priority, 5);
    assert_eq!(hit.max_inject_chars, Some(-1));
    assert_eq!(f32::from_bits(hit.score_bits), 1.5);
    assert_eq!(
        status_counts(1, 2, 3, 4).write(),
        r#"{"chunks":2,"documents":1,"relations":3,"triggers":4}"#
    );
}

#[test]
fn times_are_written_in_utc() {
    assert_eq!(
        format_system_time(Timestamp { secs: 0, nanos: 0 }),
        "1970-01-01T00:00:00+00:00"
    );
    assert_eq!(
        format_system_time(Timestamp {
            secs: 1700000000,
            nanos: 500_000_000
        }),
        "2023-11-14T22:13:20.500+00:00"
    );
    let first = Timestamp {
        secs: FIRST_SECOND,
        nanos: 0,
    };
    let last = Timestamp {
        secs: LAST_SECOND,
        nanos: 999_999_999,
    };
    assert_eq!(format_system_time(first), "-262143-01-01T00:00:00+00:00");
    assert_eq!(
        format_system_time(last),
        "+262142-12-31T23:59:59.999999999+00:00"
    );
    assert!(first.has_date() && last.has_date());
    assert!(!Timestamp {
        secs: LAST_SECOND + 1,
        nanos: 0
    }
    .has_date());
    assert!(last.is_at_or_after(&first));
    assert!(!first.is_at_or_after(&last));
}

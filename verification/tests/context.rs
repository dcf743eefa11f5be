use ironclaw::knowledge_wiki::context::{
    escape_attr, escape_text, format_context, select_hits, truncate_chars, WikiContextProvider,
};
use ironclaw::knowledge_wiki::types::WikiSearchHit;
use ironclaw::timestamp::Timestamp;

fn hit(kind: &str, path: &str, preview: &str) -> WikiSearchHit {
    WikiSearchHit {
        kind: kind.to_string(),
        path: path.to_string(),
        chunk_id: None,
        relation_id: None,
        subject: None,
        predicate: None,
        object: None,
        status: Some("approved".to_string()),
        doc_type: None,
        priority: 0,
        max_inject_chars: None,
        preview: preview.to_string(),
        score_bits: 1.0f32.to_bits(),
        indexed_at: Timestamp { secs: 0, nanos: 0 },
    }
}

#[test]
fn a_provider_asks_for_four_times_its_limit() {
    let provider = WikiContextProvider::new();
    let request = provider.search_request("what?");
    assert_eq!(request.namespace, "global");
    assert_eq!(request.query, "what?");
    assert_eq!(request.limit, 20);
    let greedy = WikiContextProvider {
        namespace: "n".to_string(),
        limit: usize::MAX,
        budget_chars: 1,
    };
    assert_eq!(greedy.search_request("").limit, usize::MAX);
}

#[test]
fn no_results_give_no_context() {
    assert_eq!(WikiContextProvider::new().context_for_prompt(vec![]), None);
    let mut disabled = hit("chunk", "a", "x");
    disabled.status = Some("disabled".to_string());
    assert_eq!(
        WikiContextProvider::new().context_for_prompt(vec![disabled]),
        None
    );
}

#[test]
fn the_context_is_marked_up() {
    let mut h = hit("chunk", "a\"b.md", "1 < 2 & 3");
    h.doc_type = Some("no<te".to_string());
    h.priority = -4;
    let got = WikiContextProvider::new().context_for_prompt(vec![h]).unwrap();
    assert_eq!(
        got,
        "<knowledge_wiki_context namespace=\"global\" trust=\"operator-maintained\">\n\
         Use this operator-maintained business knowledge as background and rule context. \
         Do not invent facts beyond the cited wiki snippets.\n\
         \n<entry kind=\"chunk\" path=\"a&quot;b.md\" priority=\"-4\" type=\"no&lt;te\">\n\
         1 &lt; 2 &amp; 3\n</entry>\n\
         </knowledge_wiki_context>"
    );
    assert_eq!(
        format_context("a&b", &vec![]),
        "<knowledge_wiki_context namespace=\"a&amp;b\" trust=\"operator-maintained\">\n\
         Use this operator-maintained business knowledge as background and rule context. \
         Do not invent facts beyond the cited wiki snippets.\n\
         </knowledge_wiki_context>"
    );
}

#[test]
fn results_are_picked_once_and_within_the_budget() {
    let hits = vec![
        hit("chunk", "a", "12345"),
        hit("chunk", "a", "again"),
        hit("trigger", "a", "123"),
        hit("chunk", "b", "123456789"),
        hit("chunk", "c", "1"),
    ];
    let picked = select_hits(hits, 5, 10);
    let keys: Vec<(String, String)> = picked
        .iter()
        .map(|h| (h.kind.clone(), h.path.clone()))
        .collect();
    assert_eq!(
        keys,
        vec![
            ("chunk".to_string(), "a".to_string()),
            ("trigger".to_string(), "a".to_string())
        ]
    );
}

#[test]
fn the_first_result_is_picked_whatever_its_size() {
    let picked = select_hits(vec![hit("chunk", "a", "12345"), hit("chunk", "b", "1")], 5, 2);
    assert_eq!(picked.len(), 1);
    let picked = select_hits(vec![hit("chunk", "a", "1"), hit("chunk", "b", "1")], 0, 100);
    assert_eq!(picked.len(), 1);
}

#[test]
fn the_limit_ends_the_picking() {
    let hits: Vec<WikiSearchHit> = (0..9).map(|i| hit("chunk", &format!("p{i}"), "x")).collect();
    assert_eq!(select_hits(hits, 3, 4000).len(), 3);
}

#[test]
fn previews_are_cut_to_size() {
    let mut short = hit("chunk", "a", "abcdef");
    short.max_inject_chars = Some(3);
    let mut odd = hit("chunk", "b", &"x".repeat(1300));
    odd.max_inject_chars = Some(-1);
    let picked = select_hits(vec![short, odd], 5, 4000);
    assert_eq!(picked[0].preview, "abc...");
    assert_eq!(picked[1].preview.chars().count(), 1203);
    assert_eq!(truncate_chars("äöü", 3), "äöü");
    assert_eq!(truncate_chars("äöü", 2), "äö...");
    assert_eq!(truncate_chars("", 0), "");
}

#[test]
fn markup_is_escaped() {
    assert_eq!(escape_text("<a href=\"x\">&</a>"), "&lt;a href=\"x\"&gt;&amp;&lt;/a&gt;");
    assert_eq!(escape_attr("\"<&>"), "&quot;&lt;&amp;&gt;");
}

use orderbook_stream::backfill::{
    blank, block_from, blocks_prefix, checkpoint_prefix, date_prefix, entry_name, find_in_files,
    listing_names, number_blocks, space, Block, BlockSearch, SearchStep,
};
use orderbook_stream::block_range::BlockRange;

fn strings(list: &[&str]) -> Vec<String> {
    list.iter().map(|s| s.to_string()).collect()
}

fn parse(text: &str) -> serde_json::Value {
    serde_json::from_str(text).unwrap()
}

fn range(key: &str) -> BlockRange {
    BlockRange::from_s3_key(key).unwrap()
}

#[test]
fn entry_names_lose_the_prefix() {
    assert_eq!(entry_name("replica_cmds/1704067200/", "replica_cmds/", true), Some("1704067200".to_string()));
    assert_eq!(entry_name("replica_cmds/a/b/10-20", "replica_cmds/a/b/", false), Some("10-20".to_string()));
    assert_eq!(entry_name("replica_cmds/a/b/10-20/", "replica_cmds/a/b/", false), Some("10-20/".to_string()));
    assert_eq!(entry_name("replica_cmds/", "replica_cmds/", true), None);
    assert_eq!(entry_name("replica_cmds/", "replica_cmds/", false), None);
    assert_eq!(entry_name("replica_cmds////", "replica_cmds/", true), None);
    assert_eq!(entry_name("replica_cmds////", "replica_cmds/", false), Some("///".to_string()));
    assert_eq!(entry_name("", "p", false), None);
    assert_eq!(entry_name("other/x/", "replica_cmds/", true), Some("other/x".to_string()));
}

#[test]
fn entry_names_agree_with_the_standard_library() {
    let entries = ["", "a", "aa", "aaa", "aab/", "ab/ab/ab/c", "ab/ab", "/", "//", "a//", "ab/", "éé/x/", "xab/"];
    let prefixes = ["", "a", "aa", "ab/", "/", "é", "ab/ab/ab/c/d"];
    for entry in entries {
        for prefix in prefixes {
            let file = entry.trim_start_matches(prefix);
            let expected = if file.is_empty() { None } else { Some(file.to_string()) };
            assert_eq!(entry_name(entry, prefix, false), expected, "{:?} {:?}", entry, prefix);
            let dir = entry.trim_start_matches(prefix).trim_end_matches('/');
            let expected = if dir.is_empty() { None } else { Some(dir.to_string()) };
            assert_eq!(entry_name(entry, prefix, true), expected, "{:?} {:?}", entry, prefix);
        }
    }
}

#[test]
fn listing_names_are_sorted() {
    let names = listing_names(
        "replica_cmds/",
        &strings(&["replica_cmds/1704067200/", "replica_cmds/1604067200/", "replica_cmds/"]),
        &strings(&["replica_cmds/readme", "replica_cmds/", "replica_cmds/0-index"]),
    );
    assert_eq!(names, strings(&["0-index", "1604067200", "1704067200", "readme"]));
    assert_eq!(listing_names("p/", &Vec::new(), &Vec::new()), Vec::<String>::new());
}

#[test]
fn prefixes_of_the_listings() {
    assert_eq!(blocks_prefix(), "replica_cmds/");
    assert_eq!(checkpoint_prefix("1704067200"), "replica_cmds/1704067200/");
    assert_eq!(date_prefix("1704067200", "20240101"), "replica_cmds/1704067200/20240101/");
}

#[test]
fn first_file_with_the_block_is_found() {
    let files = strings(&["0-9", "notes", "10-19", "15-30", "20-29"]);
    assert_eq!(find_in_files("c", "d", &files, 5), Some(range("replica_cmds/c/d/0-9")));
    assert_eq!(find_in_files("c", "d", &files, 10), Some(range("replica_cmds/c/d/10-19")));
    assert_eq!(find_in_files("c", "d", &files, 19), Some(range("replica_cmds/c/d/10-19")));
    assert_eq!(find_in_files("c", "d", &files, 20), Some(range("replica_cmds/c/d/15-30")));
    assert_eq!(find_in_files("c", "d", &files, 30), Some(range("replica_cmds/c/d/15-30")));
    assert_eq!(find_in_files("c", "d", &files, 31), None);
    assert_eq!(find_in_files("c", "d", &Vec::new(), 5), None);
    // A file name with a slash makes a key of too many pieces.
    assert_eq!(find_in_files("c", "d", &strings(&["x/0-9"]), 5), None);
    assert_eq!(find_in_files("c/x", "d", &strings(&["0-9"]), 5), None);
}

#[test]
fn search_goes_through_the_dates_of_the_latest_checkpoint() {
    let (search, prefix) = BlockSearch::start(25);
    assert_eq!(prefix, "replica_cmds/");
    assert_eq!(search.target(), 25);
    let (search, step) = search.on_listing(Some(strings(&["1604067200", "1704067200"])));
    assert_eq!(step, SearchStep::List("replica_cmds/1704067200/".to_string()));
    let (search, step) = search.on_listing(Some(strings(&["20240101", "20240102", "20240103"])));
    assert_eq!(step, SearchStep::List("replica_cmds/1704067200/20240101/".to_string()));
    let (search, step) = search.on_listing(Some(strings(&["0-9", "10-19"])));
    assert_eq!(step, SearchStep::List("replica_cmds/1704067200/20240102/".to_string()));
    let (search, step) = search.on_listing(Some(strings(&["20-29", "30-39"])));
    assert_eq!(step, SearchStep::Found(range("replica_cmds/1704067200/20240102/20-29")));
    let (_, step) = search.on_listing(Some(strings(&["20-29"])));
    assert_eq!(step, SearchStep::NotFound);
}

#[test]
fn search_ends_without_a_file() {
    let (search, _) = BlockSearch::start(99);
    let (search, _) = search.on_listing(Some(strings(&["c"])));
    let (search, _) = search.on_listing(Some(strings(&["d1", "d2"])));
    let (search, step) = search.on_listing(Some(strings(&["0-9"])));
    assert_eq!(step, SearchStep::List("replica_cmds/c/d2/".to_string()));
    let (search, step) = search.on_listing(Some(strings(&["10-19"])));
    assert_eq!(step, SearchStep::NotFound);
    let (_, step) = search.on_listing(Some(strings(&["90-100"])));
    assert_eq!(step, SearchStep::NotFound);
}

#[test]
fn search_ends_on_an_empty_or_failed_listing() {
    let (search, _) = BlockSearch::start(1);
    assert_eq!(search.on_listing(None).1, SearchStep::NotFound);
    let (search, _) = BlockSearch::start(1);
    assert_eq!(search.on_listing(Some(Vec::new())).1, SearchStep::NotFound);
    let (search, _) = BlockSearch::start(1);
    let (search, _) = search.on_listing(Some(strings(&["c"])));
    assert_eq!(search.on_listing(None).1, SearchStep::NotFound);
    let (search, _) = BlockSearch::start(1);
    let (search, _) = search.on_listing(Some(strings(&["c"])));
    let (search, step) = search.on_listing(Some(Vec::new()));
    assert_eq!(step, SearchStep::NotFound);
    assert_eq!(search.on_listing(Some(strings(&["0-9"]))).1, SearchStep::NotFound);
    let (search, _) = BlockSearch::start(1);
    let (search, _) = search.on_listing(Some(strings(&["c"])));
    let (search, _) = search.on_listing(Some(strings(&["d1", "d2"])));
    let (search, step) = search.on_listing(None);
    assert_eq!(step, SearchStep::NotFound);
    assert_eq!(search.on_listing(Some(strings(&["0-9"]))).1, SearchStep::NotFound);
}

#[test]
fn white_space_agrees_with_the_standard_library() {
    for code in 0..=0x10FFFFu32 {
        if let Some(c) = char::from_u32(code) {
            assert_eq!(space(c), c.is_whitespace(), "{:x}", code);
        }
    }
}

#[test]
fn blank_lines() {
    for line in ["", " ", "\t", " \r", "\u{3000}\u{A0} ", "\n\n"] {
        assert!(blank(line), "{:?}", line);
        assert!(line.trim().is_empty());
    }
    for line in ["a", " a ", "{}", "\u{200B}", "_", " \u{0}"] {
        assert!(!blank(line), "{:?}", line);
        assert!(!line.trim().is_empty());
    }
}

#[test]
fn blocks_are_numbered_by_their_lines() {
    let lines = vec![
        Some("{\"a\": 1}".to_string()),
        Some("".to_string()),
        Some("   ".to_string()),
        Some("not json".to_string()),
        None,
        Some(" [1, 2] ".to_string()),
        Some("7".to_string()),
    ];
    assert_eq!(
        number_blocks(830_000_000, &lines),
        vec![
            Block { block_number: 830_000_000, data: parse("{\"a\":1}") },
            Block { block_number: 830_000_005, data: parse("[1,2]") },
            Block { block_number: 830_000_006, data: parse("7") },
        ]
    );
    assert_eq!(number_blocks(5, &Vec::new()), Vec::<Block>::new());
    assert_eq!(number_blocks(u64::MAX, &Vec::new()), Vec::<Block>::new());
    assert_eq!(
        number_blocks(u64::MAX, &vec![Some("null".to_string())]),
        vec![Block { block_number: u64::MAX, data: serde_json::Value::Null }]
    );
    assert_eq!(
        number_blocks(u64::MAX - 1, &vec![None, Some("1".to_string())]),
        vec![Block { block_number: u64::MAX, data: parse("1") }]
    );
}

#[test]
fn block_from_sorts_the_outcomes() {
    let ok: Result<serde_json::Value, serde_json::Error> = serde_json::from_str("{\"k\": 1}");
    assert_eq!(block_from(3, ok), Some(Block { block_number: 3, data: parse("{\"k\":1}") }));
    let failed: Result<serde_json::Value, serde_json::Error> = serde_json::from_str("{");
    assert_eq!(block_from(3, failed), None);
}

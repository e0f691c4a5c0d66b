use doujinshi_org::document::same_text;
use doujinshi_org::ident::{parse_record_id, parse_tagged};
use doujinshi_org::registry::{catalog, BOOK, BOOK_TAG, CHARACTER_TAG, CONVENTION, KIND_COUNT};
use doujinshi_org::sink::{
    chunk_values, decode_field, decode_row, encode_field, encode_row, header, insert_statement,
    join_texts, plan_chunks, row_offsets, without_separators, NULL_MARKER,
};

fn strings(v: &[&str]) -> Vec<String> {
    v.iter().map(|s| s.to_string()).collect()
}

#[test]
fn empty_values_are_written_as_the_null_marker() {
    assert_eq!(NULL_MARKER, "\\N");
    assert_eq!(encode_field(""), "\\N");
    assert_eq!(encode_field("\n\r"), "\\N");
    assert_eq!(encode_field("abc"), "abc");
    assert_eq!(decode_field("\\N"), "");
    assert_eq!(decode_field("abc"), "abc");
}

#[test]
fn a_value_that_looks_like_the_marker_is_escaped() {
    assert_eq!(encode_field("\\N"), "\\\\N");
    assert_ne!(encode_field("\\N"), encode_field(""));
    assert_eq!(decode_field("\\\\N"), "\\N");
    assert_eq!(encode_field("\\"), "\\\\");
    assert_eq!(decode_field("\\\\"), "\\");
    assert_eq!(encode_field("a\\b"), "a\\b");
    let row = strings(&["\\N", "", "\\x", "\\"]);
    assert_eq!(decode_row(&encode_row(&row)), row);
}

#[test]
fn record_separators_are_dropped_from_values() {
    assert_eq!(without_separators("a\nb\r\nc"), "abc");
    assert_eq!(without_separators("\nx\n"), "x");
    assert_eq!(without_separators("山田\n太郎"), "山田太郎");
    assert_eq!(encode_field("line one\nline two"), "line oneline two");
}

#[test]
fn written_rows_read_back_to_their_values() {
    let row = strings(&["42", "", "山田, 太郎", "", "a,b"]);
    let written = encode_row(&row);
    assert_eq!(written, strings(&["42", "\\N", "山田, 太郎", "\\N", "a,b"]));
    assert_eq!(decode_row(&written), row);
}

#[test]
fn header_lists_the_columns() {
    let reg = catalog();
    assert_eq!(
        header(&reg.kinds[CONVENTION]),
        strings(&["id", "name", "name_en", "name_romaji", "name_alt", "start_date", "end_date"])
    );
    assert_eq!(header(&reg.kinds[BOOK_TAG]), strings(&["book_id", "tag_id"]));
}

#[test]
fn chunks_are_filled_greedily_with_whole_groups() {
    assert_eq!(plan_chunks(&vec![2, 2, 3, 1], 4), vec![2, 4]);
    assert_eq!(plan_chunks(&vec![2, 3, 3, 1], 4), vec![1, 2, 4]);
    assert_eq!(plan_chunks(&vec![1, 1, 1], 1000), vec![3]);
    assert_eq!(plan_chunks(&vec![], 10), Vec::<usize>::new());
    assert_eq!(plan_chunks(&vec![5, 1, 7, 2, 2], 4), vec![1, 2, 3, 5]);
    assert_eq!(plan_chunks(&vec![1, 1], 0), vec![1, 2]);
}

#[test]
fn chunk_offsets_and_values_follow_the_plan() {
    let groups = vec![2, 1, 3];
    let ends = plan_chunks(&groups, 3);
    assert_eq!(ends, vec![2, 3]);
    assert_eq!(row_offsets(&groups, &ends), vec![3, 6]);
    let rows = vec![
        strings(&["1", "1"]),
        strings(&["1", "2"]),
        strings(&["2", "5"]),
        strings(&["3", "1"]),
    ];
    assert_eq!(chunk_values(&rows, 1, 3), strings(&["1", "2", "2", "5"]));
    assert_eq!(chunk_values(&rows, 2, 2), Vec::<String>::new());
}

#[test]
fn insert_statements_hold_one_placeholder_per_value() {
    let reg = catalog();
    assert_eq!(
        insert_statement(&reg.kinds[CHARACTER_TAG], 2),
        "INSERT INTO character_tags (character_id,tag_id) VALUES (?,?),(?,?)"
    );
    assert_eq!(
        insert_statement(&reg.kinds[BOOK], 1),
        "INSERT INTO books (id,name,name_en,name_romaji,name_alt) VALUES (?,?,?,?,?)"
    );
    assert_eq!(
        insert_statement(&reg.kinds[BOOK_TAG], 0),
        "INSERT INTO book_tags (book_id,tag_id) VALUES "
    );
}

#[test]
fn texts_join_with_commas() {
    assert_eq!(join_texts(&strings(&["a", "", "c"])), "a,,c");
    assert_eq!(join_texts(&strings(&["x"])), "x");
    assert_eq!(join_texts(&vec![]), "");
}

#[test]
fn registry_finds_kinds_and_their_scan_directories() {
    let reg = catalog();
    assert_eq!(reg.kinds.len(), KIND_COUNT);
    assert_eq!(reg.find("BookTag"), Some(BOOK_TAG));
    assert_eq!(reg.find("Convention"), Some(CONVENTION));
    assert_eq!(reg.find("Nothing"), None);
    assert_eq!(reg.scan_dir(BOOK_TAG), "Book");
    assert_eq!(reg.scan_dir(CHARACTER_TAG), "Character");
    assert_eq!(reg.scan_dir(reg.find("Tag").unwrap()), "Content");
    assert_eq!(reg.scan_dir(reg.find("Series").unwrap()), "Collections");
}

#[test]
fn tagged_ids_need_their_tag_and_something_after_it() {
    assert_eq!(parse_tagged("K12", 'K'), Some("12".to_string()));
    assert_eq!(parse_tagged("K", 'K'), None);
    assert_eq!(parse_tagged("H12", 'K'), None);
    assert_eq!(parse_tagged("K1a", 'K'), Some("1a".to_string()));
    assert_eq!(parse_tagged("Kx", 'K'), Some("x".to_string()));
    assert_eq!(parse_tagged("", 'K'), None);
    assert_eq!(parse_record_id("A42", 'A'), "42");
    assert_eq!(parse_record_id("42", 'A'), "42");
    assert_eq!(parse_record_id("AA42", 'A'), "");
    assert_eq!(parse_record_id("", 'A'), "");
}

#[test]
fn texts_compare_by_characters() {
    assert!(same_text("山田", "山田"));
    assert!(!same_text("山田", "山"));
    assert!(!same_text("ab", "ac"));
    assert!(same_text("", ""));
}

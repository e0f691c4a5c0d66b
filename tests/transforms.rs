use doujinshi_org::document::{Json, Member};
use doujinshi_org::pipeline::{run_batch, transform};
use doujinshi_org::registry::{
    catalog, Field, RecordKind, Shape, AUTHOR, BOOK_AUTHOR, BOOK_TAG, CHARACTER_TAG, CONVENTION,
    KIND_COUNT, PARODY_CHARACTER, TAG,
};
use doujinshi_org::extract::extract_fields;
use doujinshi_org::links::{normalize_links, relationship_rows};

fn text(s: &str) -> Json {
    Json::Str(s.to_string())
}

fn object(members: Vec<(&str, Json)>) -> Json {
    Json::Object(
        members
            .into_iter()
            .map(|(k, v)| Member { key: k.to_string(), value: v })
            .collect(),
    )
}

fn reference(id: &str) -> Json {
    object(vec![("@ID", text(id))])
}

fn with_links(id: &str, item: Json) -> Json {
    object(vec![("@ID", text(id)), ("LINKS", object(vec![("ITEM", item)]))])
}

fn strings(v: &[&str]) -> Vec<String> {
    v.iter().map(|s| s.to_string()).collect()
}

#[test]
fn author_document_gives_its_row() {
    let reg = catalog();
    let doc = object(vec![
        ("@ID", text("A42")),
        ("NAME_JP", text("山田")),
        ("NAME_ALT", Json::Array(vec![text("山田太郎"), text("Yamada")])),
    ]);
    let rows = transform(&reg, AUTHOR, &doc).unwrap();
    assert_eq!(rows, vec![strings(&["42", "山田", "", "", "山田太郎,Yamada"])]);
}

#[test]
fn character_tags_fan_out_one_row_per_tag() {
    let reg = catalog();
    let doc = with_links("H7", Json::Array(vec![reference("K1"), reference("K9")]));
    let rows = transform(&reg, CHARACTER_TAG, &doc).unwrap();
    assert_eq!(rows, vec![strings(&["7", "1"]), strings(&["7", "9"])]);
}

#[test]
fn absent_links_give_no_rows_for_every_relationship() {
    let reg = catalog();
    let plain = object(vec![("@ID", text("B5")), ("NAME_JP", text("x"))]);
    let no_item = object(vec![("@ID", text("B5")), ("LINKS", object(vec![]))]);
    for k in 0..KIND_COUNT {
        if let Shape::Relationship { source, .. } = &reg.kinds[k].shape {
            let prefix = match &reg.kinds[*source].shape {
                Shape::Entity { prefix, .. } => *prefix,
                _ => panic!("a relationship's source is an entity kind"),
            };
            let id = format!("{}5", prefix);
            let doc = object(vec![("@ID", text(&id))]);
            assert_eq!(transform(&reg, k, &doc), Some(vec![]));
        }
    }
    assert_eq!(transform(&reg, BOOK_TAG, &plain), Some(vec![]));
    assert_eq!(transform(&reg, BOOK_TAG, &no_item), Some(vec![]));
}

#[test]
fn one_malformed_document_in_a_hundred_is_skipped() {
    let reg = catalog();
    let mut inputs: Vec<Option<Json>> = Vec::new();
    for i in 0..100 {
        if i == 37 {
            inputs.push(None);
        } else {
            inputs.push(Some(object(vec![
                ("@ID", text(&format!("A{}", i + 1))),
                ("NAME_JP", text("n")),
            ])));
        }
    }
    let r = run_batch(&reg, AUTHOR, &inputs);
    assert_eq!(r.rows.len(), 99);
    assert_eq!(r.skipped, 1);
    assert_eq!(r.seen, 100);
    assert_eq!(r.groups, vec![1usize; 99]);
    assert_eq!(r.rows[0][0], "1");
    assert_eq!(r.rows[98][0], "100");
}

#[test]
fn only_documents_without_an_id_are_skipped() {
    let reg = catalog();
    let inputs = vec![
        Some(object(vec![("NAME_JP", text("no id"))])),
        Some(object(vec![("@ID", text("Axy")), ("NAME_JP", text("n"))])),
        Some(object(vec![("@ID", Json::Number("12".to_string()))])),
        Some(object(vec![("@ID", text("A3"))])),
        None,
    ];
    let r = run_batch(&reg, AUTHOR, &inputs);
    assert_eq!(r.skipped, 3);
    assert_eq!(r.seen, 5);
    assert_eq!(
        r.rows,
        vec![strings(&["", "n", "", "", ""]), strings(&["3", "", "", "", ""])]
    );
}

#[test]
fn a_relationship_document_with_a_non_numeric_id_keeps_its_rows() {
    let reg = catalog();
    let doc = with_links("Hx", Json::Array(vec![reference("K1")]));
    assert_eq!(transform(&reg, CHARACTER_TAG, &doc), Some(vec![strings(&["", "1"])]));
}

#[test]
fn entity_rows_have_one_value_per_column() {
    let reg = catalog();
    let doc = object(vec![("@ID", text("C1"))]);
    for k in 0..KIND_COUNT {
        let kind = &reg.kinds[k];
        if let Shape::Entity { prefix, fields, .. } = &kind.shape {
            let row = extract_fields(&doc, *prefix, fields);
            assert_eq!(row.len(), kind.columns.len());
        }
    }
    let row = extract_fields(&Json::Null, 'C', match &reg.kinds[CONVENTION].shape {
        Shape::Entity { fields, .. } => fields,
        _ => panic!("conventions are an entity kind"),
    });
    assert_eq!(row, strings(&["", "", "", "", "", "", ""]));
}

#[test]
fn convention_dates_and_missing_names_default() {
    let reg = catalog();
    let doc = object(vec![
        ("@ID", text("C12")),
        ("NAME_EN", text("Comic Market")),
        ("NAME_ALT", text("Comiket")),
        ("DATE_START", text("2020-08-14")),
        ("DATE_END", Json::Null),
    ]);
    let rows = transform(&reg, CONVENTION, &doc).unwrap();
    assert_eq!(
        rows,
        vec![strings(&["12", "", "Comic Market", "", "Comiket", "2020-08-14", ""])]
    );
}

#[test]
fn alt_names_skip_values_that_are_not_text() {
    let reg = catalog();
    let doc = object(vec![
        ("@ID", text("K4")),
        ("NAME_ALT", Json::Array(vec![text("a"), Json::Bool(true), text("b"), text("")])),
    ]);
    let rows = transform(&reg, TAG, &doc).unwrap();
    assert_eq!(rows[0][4], "a,b,");
    let none = object(vec![("@ID", text("K4")), ("NAME_ALT", Json::Number("3".to_string()))]);
    assert_eq!(transform(&reg, TAG, &none).unwrap()[0][4], "");
}

#[test]
fn an_id_without_its_tag_is_kept_when_numeric() {
    let reg = catalog();
    let doc = object(vec![("@ID", text("42"))]);
    assert_eq!(transform(&reg, AUTHOR, &doc).unwrap()[0][0], "42");
    let other_tag = object(vec![("@ID", text("H42"))]);
    assert_eq!(transform(&reg, AUTHOR, &other_tag), Some(vec![strings(&["", "", "", "", ""])]));
}

#[test]
fn flags_compare_against_the_truthy_text() {
    let fields = vec![Field::Id, Field::Flag { key: "ADULT", truthy: "Y" }];
    let yes = object(vec![("@ID", text("B1")), ("ADULT", text("Y"))]);
    let no = object(vec![("@ID", text("B2")), ("ADULT", text("N"))]);
    let absent = object(vec![("@ID", text("B3"))]);
    assert_eq!(extract_fields(&yes, 'B', &fields), strings(&["1", "true"]));
    assert_eq!(extract_fields(&no, 'B', &fields), strings(&["2", "false"]));
    assert_eq!(extract_fields(&absent, 'B', &fields), strings(&["3", "false"]));
}

#[test]
fn single_reference_normalizes_like_a_one_element_list() {
    let singles: [fn() -> Json; 2] = [|| reference("K3"), || text("K3")];
    for single in singles {
        let alone = with_links("H1", single());
        let listed = with_links("H1", Json::Array(vec![single()]));
        assert_eq!(normalize_links(&alone), normalize_links(&listed));
        assert_eq!(normalize_links(&alone), strings(&["K3"]));
    }
}

#[test]
fn links_mixing_strings_and_objects_keep_their_tags() {
    let doc = with_links(
        "B1",
        Json::Array(vec![text("A2"), reference("H3"), object(vec![]), Json::Null, reference("K4")]),
    );
    assert_eq!(normalize_links(&doc), strings(&["A2", "H3", "K4"]));
    assert_eq!(normalize_links(&with_links("B1", Json::Null)), Vec::<String>::new());
}

#[test]
fn references_to_other_kinds_give_no_rows() {
    let reg = catalog();
    let doc = with_links("B8", Json::Array(vec![reference("H1"), reference("K2"), text("X3")]));
    assert_eq!(transform(&reg, BOOK_AUTHOR, &doc), Some(vec![]));
    assert_eq!(transform(&reg, BOOK_TAG, &doc), Some(vec![strings(&["8", "2"])]));
}

#[test]
fn only_references_with_the_target_tag_are_targets() {
    let doc = with_links(
        "P3",
        Json::Array(vec![reference("H"), reference("Hx1"), reference("H10"), text("h11")]),
    );
    assert_eq!(
        relationship_rows(&doc, 'P', 'H'),
        vec![strings(&["3", "x1"]), strings(&["3", "10"])]
    );
    let reg = catalog();
    assert_eq!(
        transform(&reg, PARODY_CHARACTER, &doc),
        Some(vec![strings(&["3", "x1"]), strings(&["3", "10"])])
    );
    let book = with_links("B5", Json::Array(vec![reference("Hx"), text("Kx")]));
    assert_eq!(transform(&reg, doujinshi_org::registry::BOOK_CHARACTER, &book), Some(vec![strings(&["5", "x"])]));
    assert_eq!(transform(&reg, BOOK_TAG, &book), Some(vec![strings(&["5", "x"])]));
    let source = with_links("Bxy", reference("K2"));
    assert_eq!(transform(&reg, BOOK_TAG, &source), Some(vec![strings(&["", "2"])]));
}

#[test]
fn relationship_rows_keep_each_document_together() {
    let reg = catalog();
    let inputs = vec![
        Some(with_links("B1", Json::Array(vec![reference("A1"), reference("A2")]))),
        Some(with_links("B2", reference("K7"))),
        Some(with_links("B3", text("A3"))),
        Some(object(vec![("LINKS", object(vec![("ITEM", text("A9"))]))])),
        Some(with_links("B4", Json::Array(vec![reference("A4"), reference("A5"), reference("A6")]))),
    ];
    let r = run_batch(&reg, BOOK_AUTHOR, &inputs);
    assert_eq!(
        r.rows,
        vec![
            strings(&["1", "1"]),
            strings(&["1", "2"]),
            strings(&["3", "3"]),
            strings(&["4", "4"]),
            strings(&["4", "5"]),
            strings(&["4", "6"]),
        ]
    );
    assert_eq!(r.groups, vec![2, 1, 3]);
    assert_eq!(r.skipped, 1);
    assert_eq!(r.seen, 5);
}

#[test]
fn two_runs_over_the_same_inputs_agree() {
    let reg = catalog();
    let make = || {
        vec![
            Some(with_links("H2", Json::Array(vec![reference("K5"), reference("K6")]))),
            None,
            Some(with_links("H1", reference("K1"))),
        ]
    };
    let first = run_batch(&reg, CHARACTER_TAG, &make());
    let second = run_batch(&reg, CHARACTER_TAG, &make());
    assert_eq!(first.rows, second.rows);
    assert_eq!(first.groups, second.groups);
    assert_eq!(first.skipped, second.skipped);
}

#[test]
fn a_custom_kind_uses_its_own_fields() {
    let kind = RecordKind {
        name: "Circle",
        export: "circles",
        columns: vec!["id", "name"],
        shape: Shape::Entity { dir: "Circle", prefix: 'X', fields: vec![Field::Id, Field::Text("NAME_JP")] },
    };
    let reg = doujinshi_org::registry::Registry { kinds: vec![kind] };
    let doc = object(vec![("@ID", text("X77")), ("NAME_JP", text("c"))]);
    assert_eq!(transform(&reg, 0, &doc), Some(vec![strings(&["77", "c"])]));
}

#[test]
fn an_empty_batch_gives_nothing() {
    let reg = catalog();
    let r = run_batch(&reg, BOOK_TAG, &vec![]);
    assert!(r.rows.is_empty());
    assert!(r.groups.is_empty());
    assert_eq!(r.seen, 0);
    assert_eq!(r.skipped, 0);
}

use aemo_automate::parsers::sttm::{
    absorb_page, compose_identifier, get_records, page_is_skipped, parse_records,
    record_identifier, records_from_markup, scan_markup, PageLine, PageScan, RecordLines,
};
use aemo_automate::{
    setup_dom, DictionaryField, DocumentFault, ExtractError, Markup, MarkupElement, MarkupNode,
    Record, RecordField,
};

fn strings(items: &[&str]) -> Vec<String> {
    items.iter().map(|s| s.to_string()).collect()
}

fn row(field: &str, data_type: &str, reports: &[&str]) -> DictionaryField {
    DictionaryField {
        field: field.to_string(),
        data_type: data_type.to_string(),
        reports: strings(reports),
    }
}

fn column(name: &str, data_type: &str, nullable: bool) -> RecordField {
    RecordField { name: name.to_string(), data_type: data_type.to_string(), nullable }
}

fn record(name: &str, fields: Vec<RecordField>) -> Record {
    Record { name: name.to_string(), fields }
}

fn group(id: &str, lines: &[&str]) -> RecordLines {
    RecordLines { id: id.to_string(), lines: strings(lines) }
}

fn page(id: &str, blocks: &[&str]) -> String {
    let mut out = format!("<div id=\"{}\">", id);
    for block in blocks {
        out.push_str(&format!("<p>{}</p>", block));
    }
    out.push_str("</div>");
    out
}

fn document(pages: &[String]) -> String {
    format!("<html><body>{}</body></html>", pages.concat())
}

fn dictionary() -> Vec<DictionaryField> {
    vec![
        row("gas_date", "date", &["INT651", "INT705v2"]),
        row("hub_id", "varchar(10)", &["INT651"]),
        row("hub_id", "varchar(20)", &["INT705v2", "INT705"]),
        row("trn", "numeric(10)", &["INT705"]),
    ]
}

#[test]
fn version_two_is_part_of_the_identifier() {
    assert_eq!(record_identifier("int705_v2_detail"), Ok("INT705v2".to_string()));
}

#[test]
fn version_one_adds_nothing() {
    assert_eq!(record_identifier("int705_v1_detail"), Ok("INT705".to_string()));
}

#[test]
fn identifier_without_version_tag() {
    assert_eq!(record_identifier("int651_ex_ante~"), Ok("INT651".to_string()));
    assert_eq!(record_identifier("int651~"), Ok("INT651~".to_string()));
    assert_eq!(record_identifier(""), Ok(String::new()));
}

#[test]
fn identifier_takes_every_digit_of_the_version() {
    assert_eq!(record_identifier("int705_v12_detail"), Ok("INT705v12".to_string()));
    assert_eq!(record_identifier("int705_v11_detail"), Ok("INT705v11".to_string()));
    assert_eq!(record_identifier("int705_v01_detail"), Ok("INT705v01".to_string()));
}

#[test]
fn identifier_reads_the_first_version_tag() {
    assert_eq!(record_identifier("int705_v3_x_v4_y"), Ok("INT705v3".to_string()));
    assert_eq!(record_identifier("int705_v1_x_v4_y"), Ok("INT705".to_string()));
    assert_eq!(record_identifier("int705_v2"), Ok("INT705".to_string()));
}

#[test]
fn columns_take_their_type_from_the_dictionary() {
    let table = vec![
        group("INT651", &["gas_date", "True", "True", "hub_id", "False", "False"]),
        group("INT705v2", &["hub_id", "False", "True", "gas_date", "x", "y", "left", "over"]),
        group("EMPTY", &[]),
    ];
    assert_eq!(
        parse_records(&table, &dictionary()),
        Ok(vec![
            record(
                "INT651",
                vec![column("gas_date", "date", false), column("hub_id", "varchar(10)", true)]
            ),
            record(
                "INT705v2",
                vec![column("hub_id", "varchar(20)", true), column("gas_date", "date", false)]
            ),
            record("EMPTY", vec![]),
        ])
    );
}

#[test]
fn unresolved_lookup_is_fatal() {
    let table = vec![
        group("INT651", &["gas_date", "True", "True"]),
        group("INT705", &["trn", "True", "True", "gas_date", "True", "False", "nope", "True", "True"]),
    ];
    assert_eq!(
        parse_records(&table, &dictionary()),
        Err(ExtractError::UnresolvedFieldLookup {
            field: "gas_date".to_string(),
            report: "INT705".to_string(),
        })
    );
}

#[test]
fn unresolved_lookup_needs_a_full_row() {
    let table = vec![group("INT651", &["nope", "True"])];
    assert_eq!(parse_records(&table, &dictionary()), Ok(vec![record("INT651", vec![])]));
}

#[test]
fn defaults_are_empty() {
    assert_eq!(Record::default(), record("", vec![]));
    assert_eq!(RecordField::default(), column("", "", false));
    let r = record("INT651", vec![column("gas_date", "date", true)]);
    assert_eq!(r.clone(), r);
}

#[test]
fn records_are_read_page_by_page() {
    let html = document(&[
        page("p0", &["gas_date   True   True", "lost before any record"]),
        page(
            "p1",
            &[
                "Some heading",
                "int651_v1_ex_ante~",
                "Column Name",
                "gas_date   True   True",
                "\u{2022} a list item",
                "hub_id True False",
                "hub_id   False   False",
            ],
        ),
        page("p2", &["gas_date False False", "int705_v2_detail~", "hub_id", "True", "False"]),
    ]);
    assert_eq!(
        get_records(html, dictionary()),
        Ok(vec![
            record(
                "INT651",
                vec![
                    column("gas_date", "date", false),
                    column("hub_id", "varchar(10)", true),
                    column("gas_date", "date", true),
                ]
            ),
            record("INT705v2", vec![column("hub_id", "varchar(20)", false)]),
        ])
    );
}

#[test]
fn page_without_open_record_is_skipped_to_its_end() {
    let html = document(&[page(
        "p1",
        &["gas_date", "int651_v1_x~", "gas_date", "True", "True"],
    )]);
    assert_eq!(get_records(html, dictionary()), Ok(Vec::new()));
}

#[test]
fn marker_in_the_middle_of_a_page_opens_a_record() {
    let html = document(&[page(
        "p1",
        &["int651_v1_x~", "gas_date", "True", "True", "int705_v2_y~", "hub_id", "False", "True"],
    )]);
    assert_eq!(
        get_records(html, dictionary()),
        Ok(vec![
            record("INT651", vec![column("gas_date", "date", false)]),
            record("INT705v2", vec![column("hub_id", "varchar(20)", true)]),
        ])
    );
}

#[test]
fn bullet_line_hides_the_line_behind_it() {
    let html = document(&[page(
        "p1",
        &["int651_v1_x~", "\u{2022} note", "gas_date", "hub_id", "False", "True"],
    )]);
    assert_eq!(
        get_records(html, dictionary()),
        Ok(vec![record("INT651", vec![column("hub_id", "varchar(10)", true)])])
    );
}

#[test]
fn lookup_failure_aborts_the_extraction() {
    let html = document(&[page("p1", &["int999_v1_x~", "gas_date", "True", "True"])]);
    assert_eq!(
        get_records(html, dictionary()),
        Err(ExtractError::UnresolvedFieldLookup {
            field: "gas_date".to_string(),
            report: "INT999".to_string(),
        })
    );
}

#[test]
fn records_need_html_and_body() {
    assert_eq!(
        get_records("<p>x</p>".to_string(), dictionary()),
        Err(ExtractError::MalformedDocument(DocumentFault::NoHtmlElement))
    );
    assert_eq!(
        get_records("<html></html>".to_string(), dictionary()),
        Err(ExtractError::MalformedDocument(DocumentFault::NoBodyElement))
    );
    assert_eq!(
        get_records("<head></head>".to_string(), dictionary()),
        Err(ExtractError::MalformedDocument(DocumentFault::Unparsable))
    );
}

#[test]
fn extraction_is_repeatable() {
    let html = document(&[
        page("p1", &["int651_v1_x~", "gas_date   True   True", "hub_id", "False", "False"]),
        page("p2", &["hub_id True True", "int705_v2_y~", "gas_date", "False", "True"]),
    ]);
    let first = get_records(html.clone(), dictionary());
    let second = get_records(html, dictionary());
    assert!(first.is_ok());
    assert_eq!(first, second);
}

#[test]
fn identifier_is_stem_and_version() {
    assert_eq!(compose_identifier("INT705".to_string(), Some("2".to_string())), "INT705v2");
    assert_eq!(compose_identifier("INT705".to_string(), Some("1".to_string())), "INT705");
    assert_eq!(compose_identifier("INT705".to_string(), Some("10".to_string())), "INT705v10");
    assert_eq!(compose_identifier("INT705".to_string(), Some(String::new())), "INT705v");
    assert_eq!(compose_identifier("INT705".to_string(), None), "INT705");
}

fn marker(id: &str) -> PageLine {
    PageLine::Marker(id.to_string())
}

fn data(line: &str) -> PageLine {
    PageLine::Data(line.to_string())
}

#[test]
fn marker_opens_and_data_joins() {
    let mut groups = vec![group("A", &["a1"])];
    absorb_page(&mut groups, &vec![data("a2"), marker("B"), marker("B"), data("b1"), data("b2")]);
    assert_eq!(
        groups,
        vec![group("A", &["a1", "a2"]), group("B", &[]), group("B", &["b1", "b2"])]
    );
    absorb_page(&mut groups, &Vec::new());
    assert_eq!(groups.len(), 3);
}

#[test]
fn data_before_any_record_skips_the_rest_of_the_page() {
    let mut groups: Vec<RecordLines> = Vec::new();
    absorb_page(&mut groups, &vec![data("x"), marker("A"), data("a1")]);
    assert_eq!(groups, Vec::<RecordLines>::new());
    absorb_page(&mut groups, &vec![marker("A"), data("a1")]);
    assert_eq!(groups, vec![group("A", &["a1"])]);
}

fn block(text: &str) -> MarkupNode {
    MarkupNode::Element(MarkupElement {
        id: None,
        name: "p".to_string(),
        children: vec![MarkupNode::Text(text.to_string())],
    })
}

fn page_node(id: Option<&str>, blocks: &[&str]) -> MarkupNode {
    MarkupNode::Element(MarkupElement {
        id: id.map(|s| s.to_string()),
        name: "div".to_string(),
        children: blocks.iter().map(|b| block(b)).collect(),
    })
}

fn tree(pages: Vec<MarkupNode>) -> Markup {
    let body = MarkupElement { id: None, name: "body".to_string(), children: pages };
    let html = MarkupElement {
        id: None,
        name: "html".to_string(),
        children: vec![MarkupNode::Element(body)],
    };
    Markup { children: vec![MarkupNode::Comment("c".to_string()), MarkupNode::Element(html)] }
}

#[test]
fn records_are_read_off_a_tree() {
    let dom = tree(vec![
        page_node(Some("p1"), &["int651_v1_x~", "gas_date   True   True"]),
        page_node(None, &["int705_v2_y~", "hub_id", "True", "True"]),
        MarkupNode::Text("hub_id".to_string()),
        page_node(Some("p2"), &["hub_id", "False", "False"]),
    ]);
    assert_eq!(
        records_from_markup(&dom, &dictionary()),
        Ok(vec![record(
            "INT651",
            vec![column("gas_date", "date", false), column("hub_id", "varchar(10)", true)]
        )])
    );
}

#[test]
fn tree_without_body_is_malformed() {
    let dom = Markup { children: vec![page_node(Some("p1"), &["int651_v1_x~"])] };
    assert_eq!(
        records_from_markup(&dom, &dictionary()),
        Err(ExtractError::MalformedDocument(DocumentFault::NoHtmlElement))
    );
    let html = MarkupElement { id: None, name: "html".to_string(), children: vec![] };
    let dom = Markup { children: vec![MarkupNode::Element(html)] };
    assert_eq!(
        scan_markup(&dom, &dictionary()),
        Err(ExtractError::MalformedDocument(DocumentFault::NoBodyElement))
    );
}

#[test]
fn tree_and_markup_give_the_same_records() {
    let html = document(&[
        page("p1", &["int651_v1_x~", "gas_date   True   True", "hub_id", "False", "False"]),
        page("p2", &["hub_id True True", "int705_v2_y~", "gas_date", "False", "True"]),
    ]);
    let dom = setup_dom(html.clone()).unwrap();
    let first = records_from_markup(&dom, &dictionary());
    assert_eq!(first, records_from_markup(&dom, &dictionary()));
    assert_eq!(first, get_records(html, dictionary()));
    assert_eq!(first.map(|records| records.len()), Ok(2));
}

#[test]
fn scan_names_the_pages_it_skips() {
    let dom = tree(vec![
        page_node(Some("p0"), &["gas_date", "True", "True"]),
        page_node(Some("p1"), &["nothing kept here"]),
        page_node(None, &["hub_id"]),
        page_node(Some("p2"), &["hub_id", "int651_v1_x~", "gas_date"]),
        page_node(Some("p3"), &["int651_v1_x~", "gas_date"]),
        page_node(Some("p4"), &["hub_id", "int705_v2_y~"]),
    ]);
    assert_eq!(
        scan_markup(&dom, &dictionary()),
        Ok(PageScan {
            records: vec![group("INT651", &["gas_date", "hub_id"]), group("INT705v2", &[])],
            skipped: vec![0, 2],
        })
    );
}

#[test]
fn scan_of_complete_pages_skips_none() {
    let dom = tree(vec![page_node(Some("p1"), &["int651_v1_x~", "gas_date"])]);
    assert_eq!(
        scan_markup(&dom, &dictionary()),
        Ok(PageScan { records: vec![group("INT651", &["gas_date"])], skipped: vec![] })
    );
    assert_eq!(
        scan_markup(&tree(vec![]), &dictionary()),
        Ok(PageScan { records: vec![], skipped: vec![] })
    );
}

#[test]
fn page_is_skipped_only_before_the_first_record() {
    let none: Vec<RecordLines> = Vec::new();
    let open = vec![group("A", &[])];
    assert!(page_is_skipped(&none, &vec![data("x"), marker("A")]));
    assert!(!page_is_skipped(&none, &vec![marker("A"), data("x")]));
    assert!(!page_is_skipped(&none, &Vec::new()));
    assert!(!page_is_skipped(&open, &vec![data("x")]));
}

use aemo_automate::parsers::sttm::fetch_field;
use aemo_automate::patch::{apply_directive, patch_dictionary, versioned_report, Directive};
use aemo_automate::{DictionaryField, ExtractError};

fn strings(items: &[&str]) -> Vec<String> {
    items.iter().map(|s| s.to_string()).collect()
}

fn row(field: &str, data_type: &str, reports: &[&str]) -> DictionaryField {
    DictionaryField {
        field: field.to_string(),
        data_type: data_type.to_string(),
        reports: strings(reports),
    }
}

fn dictionary() -> Vec<DictionaryField> {
    vec![
        row("trn", "numeric(10)", &["INT705"]),
        row("gas_date", "date", &["INT653", "INT718"]),
        row("trn", "numeric(12)", &["INT706"]),
        row("hub_id", "varchar(10)", &["INT718"]),
    ]
}

fn report_uses(field: &str, report: &str) -> Directive {
    Directive::ReportUses { field: field.to_string(), report: report.to_string() }
}

fn missing_dupe(report: &str, version: i8) -> Directive {
    Directive::MissingDupe { report: report.to_string(), version }
}

fn new_field(name: &str, data_type: &str, reports: &[&str]) -> Directive {
    Directive::NewField {
        name: name.to_string(),
        data_type: data_type.to_string(),
        reports: strings(reports),
    }
}

#[test]
fn report_joins_the_first_row_of_the_field() {
    assert_eq!(
        apply_directive(dictionary(), &report_uses("trn", "INT705v2")),
        Ok(vec![
            row("trn", "numeric(10)", &["INT705", "INT705v2"]),
            row("gas_date", "date", &["INT653", "INT718"]),
            row("trn", "numeric(12)", &["INT706"]),
            row("hub_id", "varchar(10)", &["INT718"]),
        ])
    );
}

#[test]
fn report_for_an_unknown_field_fails() {
    assert_eq!(
        apply_directive(dictionary(), &report_uses("flow_direction", "INT715A")),
        Err(ExtractError::UnresolvedFieldLookup {
            field: "flow_direction".to_string(),
            report: "INT715A".to_string(),
        })
    );
}

#[test]
fn every_row_of_the_report_gets_the_version() {
    assert_eq!(
        apply_directive(dictionary(), &missing_dupe("INT718", 2)),
        Ok(vec![
            row("trn", "numeric(10)", &["INT705"]),
            row("gas_date", "date", &["INT653", "INT718", "INT718v2"]),
            row("trn", "numeric(12)", &["INT706"]),
            row("hub_id", "varchar(10)", &["INT718", "INT718v2"]),
        ])
    );
    assert_eq!(apply_directive(dictionary(), &missing_dupe("INT000", 2)), Ok(dictionary()));
}

#[test]
fn new_field_joins_at_the_end() {
    let mut expected = dictionary();
    expected.push(row("market_position", "varchar(10)", &["INT724"]));
    assert_eq!(
        apply_directive(dictionary(), &new_field("market_position", "varchar(10)", &["INT724"])),
        Ok(expected)
    );
}

#[test]
fn versioned_report_appends_the_version() {
    assert_eq!(versioned_report("INT718", 2), "INT718v2");
    assert_eq!(versioned_report("INT653", 13), "INT653v13");
    assert_eq!(versioned_report("X", -4), "Xv-4");
}

#[test]
fn directives_apply_in_order() {
    let directives = vec![
        new_field("market_position", "varchar(10)", &["INT724"]),
        report_uses("market_position", "INT718"),
        missing_dupe("INT718", 2),
        report_uses("gas_date", "INT653v3"),
    ];
    let patched = patch_dictionary(dictionary(), &directives).unwrap();
    assert_eq!(
        patched,
        vec![
            row("trn", "numeric(10)", &["INT705"]),
            row("gas_date", "date", &["INT653", "INT718", "INT718v2", "INT653v3"]),
            row("trn", "numeric(12)", &["INT706"]),
            row("hub_id", "varchar(10)", &["INT718", "INT718v2"]),
            row("market_position", "varchar(10)", &["INT724", "INT718", "INT718v2"]),
        ]
    );
    assert_eq!(
        fetch_field(patched, "market_position", "INT718v2").map(|f| f.data_type),
        Ok("varchar(10)".to_string())
    );
}

#[test]
fn first_failing_directive_ends_the_run() {
    let directives = vec![
        report_uses("trn", "INT705v2"),
        report_uses("missing", "INT1"),
        report_uses("also_missing", "INT2"),
    ];
    assert_eq!(
        patch_dictionary(dictionary(), &directives),
        Err(ExtractError::UnresolvedFieldLookup {
            field: "missing".to_string(),
            report: "INT1".to_string(),
        })
    );
}

#[test]
fn no_directives_change_nothing() {
    assert_eq!(patch_dictionary(dictionary(), &Vec::new()), Ok(dictionary()));
}

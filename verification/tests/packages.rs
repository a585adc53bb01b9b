//! Packages, read call by call against replies made by hand.
use version_renamer::msi::{
    failure, msi_template, property_query, read_msi_properties, stage_property, Answer, MsiCall,
    MsiReply, PackageEvent, PackageReader, PropertyQuery, QueryStep, Stage, SummaryQuery,
    SummaryStep, ERROR_NO_MORE_ITEMS, ERROR_UNKNOWN_PROPERTY, PID_TEMPLATE, PROPERTY_KEYS,
};

fn reply(rc: u32, len: u32, buffer: &[u16]) -> MsiReply<'_> {
    MsiReply { rc, len, buffer }
}

/// Runs a query with a return code for each call, and lists the calls.
fn run_query(
    codes: [u32; 5],
    len: u32,
    text: &[u16],
) -> (Vec<QueryStep>, Answer) {
    let mut query = PropertyQuery::new();
    let mut steps = Vec::new();
    loop {
        let step = query.step();
        if step == QueryStep::Done {
            return (steps, query.finish());
        }
        steps.push(step);
        match step {
            QueryStep::OpenView => query.on_reply(&reply(codes[0], 0, &[])),
            QueryStep::Execute => query.on_reply(&reply(codes[1], 0, &[])),
            QueryStep::Fetch => query.on_reply(&reply(codes[2], 0, &[])),
            QueryStep::ReadLength => query.on_reply(&reply(codes[3], len, &[])),
            QueryStep::ReadString(_) => query.on_reply(&reply(codes[4], len, text)),
            _ => query.on_reply(&reply(0, 0, &[])),
        }
    }
}

#[test]
fn a_query_reads_a_value_and_closes_everything() {
    let (steps, answer) = run_query([0; 5], 3, &[0x41, 0x42, 0x43, 0]);
    assert_eq!(
        steps,
        vec![
            QueryStep::OpenView,
            QueryStep::Execute,
            QueryStep::Fetch,
            QueryStep::ReadLength,
            QueryStep::ReadString(4),
            QueryStep::CloseRecord,
            QueryStep::CloseView,
        ]
    );
    assert_eq!(answer, Ok(Some("ABC".to_owned())));
}

#[test]
fn an_empty_field_is_not_read() {
    let (steps, answer) = run_query([0; 5], 0, &[0x41]);
    assert!(!steps.contains(&QueryStep::ReadString(1)));
    assert_eq!(steps.len(), 6);
    assert_eq!(answer, Ok(Some(String::new())));
}

#[test]
fn a_query_without_a_record_finds_nothing() {
    let (steps, answer) = run_query([0, 0, ERROR_NO_MORE_ITEMS, 0, 0], 1, &[]);
    assert_eq!(steps.last(), Some(&QueryStep::CloseView));
    assert_eq!(steps.len(), 4);
    assert_eq!(answer, Ok(None));
}

#[test]
fn every_failing_call_of_a_query_is_told() {
    let expected = [
        ("failed to open MSI view (error 6)", 1, false, false),
        ("failed to execute MSI view (error 6)", 3, false, true),
        ("failed to fetch MSI record (error 6)", 4, false, true),
        ("failed to read MSI string length (error 6)", 6, true, true),
        ("failed to read MSI string (error 6)", 7, true, true),
    ];
    for (i, (text, calls, record, view)) in expected.into_iter().enumerate() {
        let mut codes = [0; 5];
        codes[i] = 6;
        let (steps, answer) = run_query(codes, 2, &[0x41, 0x42, 0]);
        assert_eq!(answer, Err(text.to_owned()));
        assert_eq!(steps.len(), calls);
        assert_eq!(steps.contains(&QueryStep::CloseRecord), record);
        assert_eq!(steps.contains(&QueryStep::CloseView), view);
    }
}

/// Runs a query for the summary template with a return code for each call.
fn run_summary(codes: [u32; 3], len: u32, text: &[u16]) -> (Vec<SummaryStep>, Answer) {
    let mut query = SummaryQuery::new();
    let mut steps = Vec::new();
    loop {
        let step = query.step();
        if step == SummaryStep::Done {
            return (steps, query.finish());
        }
        steps.push(step);
        match step {
            SummaryStep::Open => query.on_reply(&reply(codes[0], 0, &[])),
            SummaryStep::ReadLength => query.on_reply(&reply(codes[1], len, &[])),
            SummaryStep::ReadString(_) => query.on_reply(&reply(codes[2], len, text)),
            _ => query.on_reply(&reply(0, 0, &[])),
        }
    }
}

#[test]
fn a_summary_template_is_read() {
    let (steps, answer) = run_summary([0; 3], 2, &[0x20, 0x41, 0]);
    assert_eq!(
        steps,
        vec![
            SummaryStep::Open,
            SummaryStep::ReadLength,
            SummaryStep::ReadString(3),
            SummaryStep::Close,
        ]
    );
    assert_eq!(answer, Ok(Some(" A".to_owned())));
}

#[test]
fn a_missing_empty_or_blank_template_is_none() {
    assert_eq!(run_summary([0, ERROR_UNKNOWN_PROPERTY, 0], 5, &[]).1, Ok(None));
    assert_eq!(run_summary([0, 0, 0], 0, &[]).1, Ok(None));
    assert_eq!(run_summary([0, 5, 0], 0, &[]).1, Ok(None));
    assert_eq!(run_summary([0, 0, 0], 2, &[0x20, 0x09, 0]).1, Ok(None));
}

#[test]
fn every_failing_call_of_a_summary_is_told() {
    let (steps, answer) = run_summary([7, 0, 0], 1, &[0]);
    assert_eq!(answer, Err("failed to open MSI summary information (error 7)".to_owned()));
    assert_eq!(steps.len(), 1);
    let (steps, answer) = run_summary([0, 7, 0], 1, &[0]);
    assert_eq!(answer, Err("failed to read MSI summary property (error 7)".to_owned()));
    assert_eq!(steps.last(), Some(&SummaryStep::Close));
    let (steps, answer) = run_summary([0, 0, 7], 1, &[0]);
    assert_eq!(answer, Err("failed to read MSI summary property (error 7)".to_owned()));
    assert_eq!(steps.last(), Some(&SummaryStep::Close));
}

#[test]
fn queries_name_their_property() {
    assert_eq!(
        property_query("ProductName"),
        "SELECT `Value` FROM `Property` WHERE `Property` = 'ProductName'"
    );
    assert_eq!(PID_TEMPLATE, 7);
}

#[test]
fn the_table_comes_before_the_summary() {
    let some = |s: &str| -> Answer { Ok(Some(s.to_owned())) };
    assert_eq!(msi_template(some("a"), some("b")), some("a"));
    assert_eq!(msi_template(Ok(None), some("b")), some("b"));
    assert_eq!(msi_template(Ok(None), Ok(None)), Ok(None));
    assert_eq!(msi_template(Ok(None), Err("x".to_owned())), Ok(None));
    assert_eq!(msi_template(Err("x".to_owned()), some("b")), Err("x".to_owned()));
}

/// Reads a package with the given answers, and lists the stages.
fn run_package(
    mut reader: PackageReader,
    rc: u32,
    properties: &[Answer],
    template: Answer,
    summary: Answer,
) -> (Vec<Stage>, PackageReader) {
    let mut stages = Vec::new();
    loop {
        let stage = reader.stage();
        stages.push(stage);
        match stage {
            Stage::OpenDatabase => reader.on_event(PackageEvent::Opened(rc)),
            Stage::Property(i) => {
                assert_eq!(stage_property(stage), Some(PROPERTY_KEYS[i]));
                reader.on_event(PackageEvent::Answered(properties[i].clone()));
            }
            Stage::Template => {
                assert_eq!(stage_property(stage), Some("Template"));
                reader.on_event(PackageEvent::Answered(template.clone()));
            }
            Stage::Summary => reader.on_event(PackageEvent::Answered(summary.clone())),
            Stage::CloseDatabase => reader.on_event(PackageEvent::Closed),
            Stage::Done => return (stages, reader),
        }
    }
}

fn all_properties() -> Vec<Answer> {
    ["Name", "26.5", "Maker", "{code}", "Remark", "About"]
        .iter()
        .map(|s| Ok(Some((*s).to_owned())))
        .collect()
}

#[test]
fn a_package_is_read() {
    let (stages, reader) = run_package(
        PackageReader::new(),
        0,
        &all_properties(),
        Ok(None),
        Ok(Some("Intel;Arm64;1033".to_owned())),
    );
    assert_eq!(stages.len(), 11);
    let info = reader.finish().ok().unwrap();
    assert_eq!(info.arch, "x86+arm64");
    assert_eq!(info.product_name, "Name");
    assert_eq!(info.company_name, "Maker");
    assert_eq!(info.internal_name, "{code}");
    assert_eq!(info.comments, "Remark");
    assert_eq!(info.file_description, "About");
    assert_eq!(info.file_version, "26.5");
    assert_eq!(info.product_version, "26.5");
    assert_eq!(info.original_filename, "");
    let fixed = info.fixed.unwrap();
    assert_eq!(fixed.file_version, [26, 5, 0, 0]);
    assert_eq!(fixed.product_version, [26, 5, 0, 0]);
    assert_eq!(fixed.file_type, "MSI");
    assert_eq!(fixed.file_subtype, "");
}

#[test]
fn a_template_in_the_table_spares_the_summary() {
    let (stages, reader) = run_package(
        PackageReader::new(),
        0,
        &all_properties(),
        Ok(Some("x64;1033".to_owned())),
        Err("not asked".to_owned()),
    );
    assert!(!stages.contains(&Stage::Summary));
    assert_eq!(reader.finish().ok().unwrap().arch, "x64");
}

#[test]
fn a_package_without_a_version_has_no_fixed_part() {
    let mut properties = all_properties();
    properties[1] = Ok(None);
    let (_, reader) =
        run_package(PackageReader::new(), 0, &properties, Ok(None), Err("broken".to_owned()));
    let info = reader.finish().ok().unwrap();
    assert!(info.fixed.is_none());
    assert_eq!(info.file_version, "");
    assert_eq!(info.arch, "");
}

#[test]
fn the_first_failing_property_ends_the_reading() {
    let mut properties = all_properties();
    properties[2] = Err("second".to_owned());
    properties[4] = Err("fourth".to_owned());
    let (stages, reader) =
        run_package(PackageReader::new(), 0, &properties, Err("last".to_owned()), Ok(None));
    assert_eq!(
        stages,
        vec![
            Stage::OpenDatabase,
            Stage::Property(0),
            Stage::Property(1),
            Stage::Property(2),
            Stage::CloseDatabase,
            Stage::Done,
        ]
    );
    assert_eq!(reader.finish().err().unwrap(), "second");
}

#[test]
fn a_failing_template_fails_the_package() {
    let (stages, reader) = run_package(
        PackageReader::new(),
        0,
        &all_properties(),
        Err("template".to_owned()),
        Ok(None),
    );
    assert_eq!(stages[stages.len() - 2], Stage::CloseDatabase);
    assert_eq!(reader.finish().err().unwrap(), "template");
}

#[test]
fn a_database_that_does_not_open_is_told() {
    let (stages, reader) =
        run_package(PackageReader::new(), 110, &all_properties(), Ok(None), Ok(None));
    assert_eq!(stages, vec![Stage::OpenDatabase, Stage::Done]);
    assert_eq!(
        reader.finish().err().unwrap(),
        "failed to open MSI database (error 110)"
    );
    assert_eq!(
        failure(MsiCall::OpenDatabase, 110),
        "failed to open MSI database (error 110)"
    );
}

#[test]
fn a_template_is_read_alone() {
    let some: Answer = Ok(Some("Arm64;0".to_owned()));
    let (stages, reader) =
        run_package(PackageReader::template_only(), 0, &[], Ok(None), some.clone());
    assert_eq!(stages.len(), 5);
    assert_eq!(reader.finish_template(), Some("Arm64;0".to_owned()));
    let (_, reader) = run_package(PackageReader::template_only(), 5, &[], some, Ok(None));
    assert_eq!(reader.finish_template(), None);
    let (_, reader) =
        run_package(PackageReader::template_only(), 0, &[], Err("x".to_owned()), Ok(None));
    assert_eq!(reader.finish_template(), None);
}

#[test]
fn events_out_of_turn_change_nothing() {
    let mut reader = PackageReader::new();
    reader.on_event(PackageEvent::Closed);
    assert_eq!(reader.stage(), Stage::OpenDatabase);
    reader.on_event(PackageEvent::Opened(0));
    reader.on_event(PackageEvent::Opened(5));
    assert_eq!(reader.stage(), Stage::Property(0));
}

#[test]
fn missing_answers_are_missing_values() {
    let info = read_msi_properties(Vec::new(), Ok(Some("xyz".to_owned()))).ok().unwrap();
    assert_eq!(info.product_name, "");
    assert_eq!(info.arch, "unknown");
    assert!(info.fixed.is_none());
}

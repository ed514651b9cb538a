use roboprec::daisy::{
    count_integer_bits, parse_daisy_errors, parse_daisy_precisions, parse_daisy_ranges,
    parse_report_precision, record_error, record_range, split_range_line, split_range_report,
    split_value_line, split_value_report,
    DaisyRange, ReportError,
};
use roboprec::identifier::{IdSize, Identifier};
use roboprec::namemap::NameMap;
use roboprec::precision::Precision;
use roboprec::program::{Input, Output, Program, ProgramInput, ProgramOutput};
use roboprec::rational::Real;
use roboprec::results::{report_worst_values, update_program_outputs};

fn rat(text: &str) -> Real {
    Real::from_text(text).unwrap()
}

fn owned(a: &str, b: &str) -> Option<(String, String)> {
    Some((a.to_string(), b.to_string()))
}

fn owned3(a: &str, b: &str, c: &str) -> Option<(String, String, String)> {
    Some((a.to_string(), b.to_string(), c.to_string()))
}

#[test]
fn test_split_value_line() {
    assert_eq!(split_value_line("x: 0.5"), Ok(owned("x", "0.5")));
    assert_eq!(split_value_line("  x_1 :\t1e-3  "), Ok(owned("x_1", "1e-3")));
    assert_eq!(split_value_line("a:b:c"), Ok(owned("a", "b:c")));
    assert_eq!(split_value_line(":"), Ok(owned("", "")));
    assert_eq!(split_value_line("x:"), Ok(owned("x", "")));
    assert_eq!(split_value_line(""), Ok(None));
    assert_eq!(split_value_line("   \t "), Ok(None));
    assert_eq!(split_value_line("\u{a0}\u{3000}"), Ok(None));
    assert_eq!(split_value_line("x 0.5"), Err(ReportError::MissingSeparator));
}

#[test]
fn test_split_range_line() {
    assert_eq!(split_range_line("x: [0, 1]"), Ok(owned3("x", "0", "1")));
    assert_eq!(split_range_line(" x :  [ -1.5 ,2e3 ]  "), Ok(owned3("x", "-1.5", "2e3")));
    assert_eq!(split_range_line("x: [,]"), Ok(owned3("x", "", "")));
    assert_eq!(split_range_line(""), Ok(None));
    assert_eq!(split_range_line("  "), Ok(None));
    assert_eq!(split_range_line("x [0, 1]"), Err(ReportError::MissingSeparator));
    assert_eq!(split_range_line("x: 0, 1"), Err(ReportError::MissingBrackets));
    assert_eq!(split_range_line("x: [0, 1"), Err(ReportError::MissingBrackets));
    assert_eq!(split_range_line("x: 0, 1]"), Err(ReportError::MissingBrackets));
    assert_eq!(split_range_line("x: ["), Err(ReportError::MissingBrackets));
    assert_eq!(split_range_line("x: [0, 1] ;"), Err(ReportError::MissingBrackets));
    assert_eq!(split_range_line("x: []"), Err(ReportError::MissingUpperBound));
    assert_eq!(split_range_line("x: [0]"), Err(ReportError::MissingUpperBound));
    assert_eq!(split_range_line("x: [0, 1, 2]"), Err(ReportError::ExtraData));
}

fn range_of(map: &NameMap<DaisyRange>, name: &str) -> (String, String) {
    let r = map.get(name).unwrap();
    (r.lower.text().clone(), r.upper.text().clone())
}

#[test]
fn test_range_merge_is_a_union() {
    let mut ranges = NameMap::new();
    record_range(&mut ranges, "x".to_string(), rat("0"), rat("1"));
    record_range(&mut ranges, "y".to_string(), rat("5"), rat("6"));
    assert_eq!(range_of(&ranges, "x"), ("0".to_string(), "1".to_string()));
    // overlapping
    record_range(&mut ranges, "x".to_string(), rat("1/2"), rat("2"));
    assert_eq!(range_of(&ranges, "x"), ("0".to_string(), "2".to_string()));
    // disjoint
    record_range(&mut ranges, "x".to_string(), rat("-5"), rat("-4"));
    assert_eq!(range_of(&ranges, "x"), ("-5".to_string(), "2".to_string()));
    // inside
    record_range(&mut ranges, "x".to_string(), rat("0"), rat("1"));
    assert_eq!(range_of(&ranges, "x"), ("-5".to_string(), "2".to_string()));
    assert_eq!(range_of(&ranges, "y"), ("5".to_string(), "6".to_string()));
    assert_eq!(ranges.len(), 2);
    assert_eq!(ranges.name_at(0), "x");
    assert_eq!(ranges.name_at(1), "y");
}

#[test]
fn test_parse_daisy_ranges_keeps_order_of_first_lines() {
    let lines = vec![
        ("b".to_string(), rat("0"), rat("1")),
        ("a".to_string(), rat("2"), rat("3")),
        ("b".to_string(), rat("-1"), rat("1/2")),
    ];
    let ranges = parse_daisy_ranges(&lines);
    assert_eq!(ranges.len(), 2);
    assert_eq!(ranges.name_at(0), "b");
    assert_eq!(ranges.name_at(1), "a");
    assert_eq!(range_of(&ranges, "b"), ("-1".to_string(), "1".to_string()));
    assert_eq!(range_of(&ranges, "a"), ("2".to_string(), "3".to_string()));
    assert!(ranges.get("c").is_none());
}

#[test]
fn test_errors_keep_larger_magnitude() {
    let mut errors = NameMap::new();
    record_error(&mut errors, "x".to_string(), rat("1/10"));
    assert_eq!(errors.get("x").unwrap().text(), "1/10");
    record_error(&mut errors, "x".to_string(), rat("-1/5"));
    assert_eq!(errors.get("x").unwrap().text(), "-1/5");
    record_error(&mut errors, "x".to_string(), rat("1/10"));
    assert_eq!(errors.get("x").unwrap().text(), "-1/5");
    record_error(&mut errors, "x".to_string(), rat("1/5"));
    assert_eq!(errors.get("x").unwrap().text(), "-1/5");
    let lines = vec![
        ("a".to_string(), rat("1")),
        ("b".to_string(), rat("-3")),
        ("a".to_string(), rat("-2")),
        ("b".to_string(), rat("2")),
    ];
    let errors = parse_daisy_errors(&lines);
    assert_eq!(errors.len(), 2);
    assert_eq!(errors.get("a").unwrap().text(), "-2");
    assert_eq!(errors.get("b").unwrap().text(), "-3");
}

#[test]
fn test_count_integer_bits() {
    assert_eq!(count_integer_bits(&rat("0")), 1);
    assert_eq!(count_integer_bits(&rat("1/2")), 1);
    assert_eq!(count_integer_bits(&rat("1")), 1);
    assert_eq!(count_integer_bits(&rat("3/2")), 2);
    assert_eq!(count_integer_bits(&rat("2")), 2);
    assert_eq!(count_integer_bits(&rat("5/2")), 3);
    assert_eq!(count_integer_bits(&rat("4")), 3);
    assert_eq!(count_integer_bits(&rat("5")), 4);
    assert_eq!(count_integer_bits(&rat("8")), 4);
    assert_eq!(count_integer_bits(&rat("1000")), 11);
    assert_eq!(count_integer_bits(&rat("1024")), 11);
    assert_eq!(count_integer_bits(&rat("1025")), 12);
}

fn ranges_of(entries: Vec<(&str, &str, &str)>) -> NameMap<DaisyRange> {
    let mut ranges = NameMap::new();
    for (name, lower, upper) in entries {
        record_range(&mut ranges, name.to_string(), rat(lower), rat(upper));
    }
    ranges
}

#[test]
fn test_parse_report_precision() {
    let ranges = ranges_of(vec![("x", "-3", "5/2"), ("z", "0", "0")]);
    assert_eq!(parse_report_precision("Float32", "x", &ranges), Ok(Precision::Float32));
    assert_eq!(parse_report_precision("Float64", "x", &ranges), Ok(Precision::Float64));
    assert_eq!(parse_report_precision("Double", "x", &ranges), Ok(Precision::Float64));
    assert_eq!(
        parse_report_precision("Fixed16-8", "nobody", &ranges),
        Ok(Precision::Fixed { total_bits: 24, fractional_bits: 8 })
    );
    assert_eq!(
        parse_report_precision("Fixed32", "x", &ranges),
        Ok(Precision::Fixed { total_bits: 32, fractional_bits: 29 })
    );
    assert_eq!(
        parse_report_precision("Fixed16", "z", &ranges),
        Ok(Precision::Fixed { total_bits: 16, fractional_bits: 15 })
    );
    assert_eq!(parse_report_precision("Fixed32", "y", &ranges), Err(ReportError::UnknownIdentifier));
    assert_eq!(parse_report_precision("Fixed", "x", &ranges), Err(ReportError::InvalidTotalBits));
    assert_eq!(
        parse_report_precision("Fixed1-", "x", &ranges),
        Err(ReportError::InvalidFractionalBits)
    );
    assert_eq!(
        parse_report_precision("Fixed2147483647-1", "x", &ranges),
        Err(ReportError::BitsOutOfRange)
    );
    assert_eq!(
        parse_report_precision("Fixed-2147483648", "x", &ranges),
        Err(ReportError::InvalidTotalBits)
    );
    assert_eq!(parse_report_precision("Half", "x", &ranges), Err(ReportError::UnknownPrecision));
    assert_eq!(parse_report_precision("double", "x", &ranges), Err(ReportError::UnknownPrecision));
}

#[test]
fn test_parse_daisy_precisions() {
    let ranges = ranges_of(vec![("x", "-3", "5/2"), ("y", "0", "100")]);
    let lines: Vec<String> = vec!["x: Fixed32", "", "  y : Fixed16  ", "w: Float32", "x: Fixed8-8"]
        .into_iter()
        .map(String::from)
        .collect();
    let formats = parse_daisy_precisions(&lines, &ranges).ok().unwrap();
    assert_eq!(formats.len(), 3);
    assert_eq!(formats.name_at(0), "x");
    assert_eq!(formats.name_at(1), "y");
    assert_eq!(formats.name_at(2), "w");
    assert_eq!(
        formats.get("x"),
        Some(&Precision::Fixed { total_bits: 16, fractional_bits: 8 })
    );
    assert_eq!(
        formats.get("y"),
        Some(&Precision::Fixed { total_bits: 16, fractional_bits: 8 })
    );
    assert_eq!(formats.get("w"), Some(&Precision::Float32));
}

fn failure_of(lines: Vec<&str>, ranges: &NameMap<DaisyRange>) -> (usize, ReportError, String) {
    let lines: Vec<String> = lines.into_iter().map(String::from).collect();
    let failure = parse_daisy_precisions(&lines, ranges).err().unwrap();
    (failure.line, failure.reason, failure.name)
}

#[test]
fn test_parse_daisy_precisions_names_the_line() {
    let ranges = ranges_of(vec![("x", "0", "1")]);
    assert_eq!(
        failure_of(vec!["x: Fixed8", "", "x Fixed8"], &ranges),
        (3, ReportError::MissingSeparator, String::new())
    );
    assert_eq!(
        failure_of(vec!["x: Fixed8", " y : Fixed8"], &ranges),
        (2, ReportError::UnknownIdentifier, "y".to_string())
    );
    assert_eq!(
        failure_of(vec!["x: Quad"], &ranges),
        (1, ReportError::UnknownPrecision, "x".to_string())
    );
    assert_eq!(
        failure_of(vec!["x: Fixedy"], &ranges),
        (1, ReportError::InvalidTotalBits, "x".to_string())
    );
    assert!(parse_daisy_precisions(&Vec::new(), &ranges).is_ok());
}

#[test]
fn test_split_range_report_stops_at_the_first_bad_line() {
    let to_lines = |v: Vec<&str>| v.into_iter().map(String::from).collect::<Vec<String>>();
    assert_eq!(
        split_range_report(&to_lines(vec!["x: [0, 1]", "", " y : [ -2 , 3.5 ]"])),
        Ok(vec![
            (1, "x".to_string(), "0".to_string(), "1".to_string()),
            (3, "y".to_string(), "-2".to_string(), "3.5".to_string()),
        ])
    );
    assert_eq!(
        split_range_report(&to_lines(vec!["x: [0, 1]", "x [0,1]", "y: [0]"])),
        Err((2, ReportError::MissingSeparator))
    );
    assert_eq!(
        split_range_report(&to_lines(vec!["x: [0, 1]", "x: 0, 1"])),
        Err((2, ReportError::MissingBrackets))
    );
    assert_eq!(
        split_range_report(&to_lines(vec!["x: [0]"])),
        Err((1, ReportError::MissingUpperBound))
    );
    assert_eq!(
        split_range_report(&to_lines(vec!["", "x: [0, 1, 2]"])),
        Err((2, ReportError::ExtraData))
    );
    assert_eq!(split_range_report(&to_lines(vec!["", "  "])), Ok(vec![]));
}

#[test]
fn test_split_value_report_stops_at_the_first_bad_line() {
    let to_lines = |v: Vec<&str>| v.into_iter().map(String::from).collect::<Vec<String>>();
    assert_eq!(
        split_value_report(&to_lines(vec!["x: 0.5", "", "y: -1e-3"])),
        Ok(vec![(1, "x".to_string(), "0.5".to_string()), (3, "y".to_string(), "-1e-3".to_string())])
    );
    assert_eq!(
        split_value_report(&to_lines(vec!["x: 0.5", "", "y 1", "z"])),
        Err((3, ReportError::MissingSeparator))
    );
}

fn scalar_id(id: usize, name: &str) -> Identifier {
    Identifier { id, name: name.to_string(), var_type: IdSize::Scalar.var_type(), size: IdSize::Scalar }
}

fn program_with_outputs() -> Program {
    let mut program = Program::new();
    let v = Identifier {
        id: 10,
        name: "v".to_string(),
        var_type: IdSize::Vector { len: 2 }.var_type(),
        size: IdSize::Vector { len: 2 },
    };
    program.add_output(scalar_id(1, "a"), ProgramOutput::Scalar { info: Output::pending(scalar_id(1, "a")) });
    program.add_output(
        v,
        ProgramOutput::Vector {
            info: vec![Output::pending(scalar_id(2, "b")), Output::pending(scalar_id(3, "c"))],
        },
    );
    program
}

fn leaf_texts(leaf: &Output) -> Vec<String> {
    vec![
        leaf.range.0.text().clone(),
        leaf.range.1.text().clone(),
        leaf.error.0.text().clone(),
        leaf.error.1.text().clone(),
    ]
}

#[test]
fn test_update_program_outputs() {
    let mut program = program_with_outputs();
    let ranges = ranges_of(vec![("a", "0", "1"), ("b", "-2", "2"), ("c", "3", "4"), ("d", "9", "9")]);
    let mut errors = NameMap::new();
    record_error(&mut errors, "a".to_string(), rat("1/100"));
    record_error(&mut errors, "b".to_string(), rat("-1/50"));
    record_error(&mut errors, "c".to_string(), rat("0"));
    assert_eq!(update_program_outputs(&mut program, &ranges, &errors), Ok(()));
    match program.get_outputs().value_at(0) {
        ProgramOutput::Scalar { info } => {
            assert_eq!(leaf_texts(info), vec!["0", "1", "-1/100", "1/100"]);
            assert_eq!(info.id.name, "a");
        }
        other => panic!("{:?}", other),
    }
    match program.get_outputs().value_at(1) {
        ProgramOutput::Vector { info } => {
            assert_eq!(leaf_texts(&info[0]), vec!["-2", "2", "-1/50", "1/50"]);
            assert_eq!(leaf_texts(&info[1]), vec!["3", "4", "0", "0"]);
        }
        other => panic!("{:?}", other),
    }
    let worst = report_worst_values(&ranges, &program).unwrap();
    assert_eq!(worst.range_min.text(), "-2");
    assert_eq!(worst.range_max.text(), "9");
    assert_eq!(worst.error_min.text(), "-1/50");
    assert_eq!(worst.error_max.text(), "1/50");
}

#[test]
fn test_update_program_outputs_needs_every_leaf() {
    let mut program = program_with_outputs();
    let ranges = ranges_of(vec![("a", "0", "1"), ("b", "-2", "2")]);
    let mut errors = NameMap::new();
    record_error(&mut errors, "a".to_string(), rat("1/100"));
    record_error(&mut errors, "b".to_string(), rat("1/100"));
    record_error(&mut errors, "c".to_string(), rat("1/100"));
    assert_eq!(
        update_program_outputs(&mut program, &ranges, &errors),
        Err(ReportError::UnknownIdentifier)
    );
    match program.get_outputs().value_at(0) {
        ProgramOutput::Scalar { info } => assert_eq!(leaf_texts(info), vec!["0", "0", "0", "0"]),
        other => panic!("{:?}", other),
    }
}

#[test]
fn test_report_worst_values_needs_ranges_and_leaves() {
    let program = program_with_outputs();
    let empty: NameMap<DaisyRange> = NameMap::new();
    assert!(report_worst_values(&empty, &program).is_none());
    let ranges = ranges_of(vec![("a", "0", "1")]);
    assert!(report_worst_values(&ranges, &Program::new()).is_none());
    let worst = report_worst_values(&ranges, &program).unwrap();
    assert_eq!(worst.range_min.text(), "0");
    assert_eq!(worst.range_max.text(), "1");
    assert_eq!(worst.error_min.text(), "0");
    assert_eq!(worst.error_max.text(), "0");
}

#[test]
fn test_get_curr_intervals() {
    let mut program = Program::new();
    program.add_input(
        scalar_id(2, "b"),
        ProgramInput::Scalar { info: Input { range: (rat("0"), rat("1")) } },
    );
    program.add_input(
        scalar_id(1, "a"),
        ProgramInput::Scalar { info: Input { range: (rat("-1"), rat("1/2")) } },
    );
    let intervals = program.get_curr_intervals().unwrap();
    assert_eq!(intervals.len(), 2);
    assert_eq!(intervals.key_at(0).name, "b");
    assert_eq!(intervals.key_at(1).name, "a");
    assert_eq!(intervals.value_at(1).0.text(), "-1");
    assert_eq!(intervals.value_at(1).1.text(), "1/2");
    let v = Identifier {
        id: 3,
        name: "v".to_string(),
        var_type: IdSize::Vector { len: 1 }.var_type(),
        size: IdSize::Vector { len: 1 },
    };
    program.add_input(v, ProgramInput::Vector { info: vec![Input { range: (rat("0"), rat("1")) }] });
    assert!(program.get_curr_intervals().is_none());
}

use study_tracker::syllabus::{parse_line, parse_syllabus, parse_topics, ParsedSyllabusEntry};

const INVALID_FORMAT: &str =
    "Invalid format. Expected: 'Subject Name >>> Unit Name >>> topic1, topic2, topic3'";
const NO_ENTRIES: &str = "No valid entries parsed from syllabus";

fn chars(s: &str) -> Vec<char> {
    s.chars().collect()
}

fn names(entry: &ParsedSyllabusEntry) -> Vec<String> {
    entry.units.iter().map(|u| u.unit_name.clone()).collect()
}

#[test]
fn test_parse_syllabus() {
    let input = r#"
Mathematics >>> Algebra >>> linear equations, quadratic equations, polynomials
Mathematics >>> Geometry >>> triangles, circles, polygons
Physics >>> Mechanics >>> newton laws, forces, momentum
        "#;

    let result = parse_syllabus(input).unwrap();
    assert_eq!(result.len(), 2);
    assert_eq!(result[0].subject_name, "Mathematics");
    assert_eq!(result[0].units.len(), 2);
    assert_eq!(result[0].units[0].topics.len(), 3);
}

#[test]
fn parses_three_lines_into_two_subjects() {
    let input = "Mathematics >>> Algebra >>> linear equations, quadratic equations, polynomials\nMathematics >>> Geometry >>> triangles, circles, polygons\nPhysics >>> Mechanics >>> newton laws, forces, momentum";
    let result = parse_syllabus(input).unwrap();
    assert_eq!(result.len(), 2);
    assert_eq!(result[0].subject_name, "Mathematics");
    assert_eq!(names(&result[0]), vec!["Algebra", "Geometry"]);
    assert_eq!(
        result[0].units[0].topics,
        vec!["linear equations", "quadratic equations", "polynomials"]
    );
    assert_eq!(result[0].units[1].topics, vec!["triangles", "circles", "polygons"]);
    assert_eq!(result[1].subject_name, "Physics");
    assert_eq!(names(&result[1]), vec!["Mechanics"]);
    assert_eq!(result[1].units[0].topics, vec!["newton laws", "forces", "momentum"]);
}

#[test]
fn line_without_delimiter_is_a_format_error() {
    let result = parse_syllabus("Mathematics Algebra");
    assert_eq!(result.unwrap_err(), INVALID_FORMAT);
}

#[test]
fn one_bad_line_fails_the_whole_parse() {
    let input = "Mathematics >>> Algebra >>> a, b\nnot an entry\nPhysics >>> Mechanics >>> c";
    assert_eq!(parse_syllabus(input).unwrap_err(), INVALID_FORMAT);
}

#[test]
fn empty_input_has_no_entries() {
    assert_eq!(parse_syllabus("").unwrap_err(), NO_ENTRIES);
}

#[test]
fn blank_input_has_no_entries() {
    assert_eq!(parse_syllabus("  \n\t\n \r\n").unwrap_err(), NO_ENTRIES);
}

#[test]
fn blank_lines_are_skipped() {
    let input = "\n\nA >>> U1 >>> t\n   \n\nA >>> U2 >>> s\n\n";
    let result = parse_syllabus(input).unwrap();
    assert_eq!(result.len(), 1);
    assert_eq!(names(&result[0]), vec!["U1", "U2"]);
}

#[test]
fn unit_without_topics_segment_has_no_topics() {
    let result = parse_syllabus("History >>> Antiquity").unwrap();
    assert_eq!(result.len(), 1);
    assert_eq!(result[0].subject_name, "History");
    assert_eq!(result[0].units[0].unit_name, "Antiquity");
    assert!(result[0].units[0].topics.is_empty());
}

#[test]
fn empty_and_blank_topics_are_dropped() {
    let result = parse_syllabus("S >>> U >>> a, , b,,   ,c ,").unwrap();
    assert_eq!(result[0].units[0].topics, vec!["a", "b", "c"]);
}

#[test]
fn topics_segment_of_whitespace_gives_no_topics() {
    let result = parse_syllabus("S >>> U >>>    ").unwrap();
    assert_eq!(result[0].units[0].unit_name, "U");
    assert!(result[0].units[0].topics.is_empty());
}

#[test]
fn no_parsed_topic_is_empty_or_blank() {
    let input = "A >>> U >>> x, \u{a0} , y\u{2003}, \t\nB >>> V >>> ,,";
    let result = parse_syllabus(input).unwrap();
    assert!(!result.is_empty());
    for entry in &result {
        for unit in &entry.units {
            for topic in &unit.topics {
                assert!(!topic.trim().is_empty());
                assert_eq!(topic.trim(), topic);
            }
        }
    }
    assert_eq!(result[0].units[0].topics, vec!["x", "y"]);
    assert!(result[1].units[0].topics.is_empty());
}

#[test]
fn segments_are_trimmed() {
    let result = parse_syllabus("   Chemistry   >>>   Acids  >>>  pH ,  salts  ").unwrap();
    assert_eq!(result[0].subject_name, "Chemistry");
    assert_eq!(result[0].units[0].unit_name, "Acids");
    assert_eq!(result[0].units[0].topics, vec!["pH", "salts"]);
}

#[test]
fn segments_after_the_third_are_ignored() {
    let result = parse_syllabus("S >>> U >>> a, b >>> c, d >>> e").unwrap();
    assert_eq!(result.len(), 1);
    assert_eq!(result[0].units.len(), 1);
    assert_eq!(result[0].units[0].topics, vec!["a", "b"]);
}

#[test]
fn subject_that_comes_back_opens_a_second_entry() {
    let input = "Math >>> Algebra >>> a\nPhysics >>> Optics >>> b\nMath >>> Geometry >>> c";
    let result = parse_syllabus(input).unwrap();
    assert_eq!(result.len(), 3);
    assert_eq!(result[0].subject_name, "Math");
    assert_eq!(names(&result[0]), vec!["Algebra"]);
    assert_eq!(result[1].subject_name, "Physics");
    assert_eq!(result[2].subject_name, "Math");
    assert_eq!(names(&result[2]), vec!["Geometry"]);
}

#[test]
fn every_line_gives_one_unit_even_with_a_repeated_name() {
    let input = "Math >>> Algebra >>> a\nMath >>> Algebra >>> b\nMath >>> Algebra";
    let result = parse_syllabus(input).unwrap();
    assert_eq!(result.len(), 1);
    assert_eq!(names(&result[0]), vec!["Algebra", "Algebra", "Algebra"]);
    assert_eq!(result[0].units[0].topics, vec!["a"]);
    assert_eq!(result[0].units[1].topics, vec!["b"]);
    assert!(result[0].units[2].topics.is_empty());
}

#[test]
fn carriage_returns_end_lines_too() {
    let input = "A >>> U1 >>> x\r\nA >>> U2 >>> y\r\n";
    let result = parse_syllabus(input).unwrap();
    assert_eq!(result.len(), 1);
    assert_eq!(names(&result[0]), vec!["U1", "U2"]);
    assert_eq!(result[0].units[0].topics, vec!["x"]);
    assert_eq!(result[0].units[1].topics, vec!["y"]);
}

#[test]
fn empty_subject_and_unit_names_are_accepted() {
    let result = parse_syllabus(">>>").unwrap();
    assert_eq!(result.len(), 1);
    assert_eq!(result[0].subject_name, "");
    assert_eq!(result[0].units[0].unit_name, "");
    assert!(result[0].units[0].topics.is_empty());
}

#[test]
fn longer_runs_of_the_delimiter_split_at_the_first_three() {
    let result = parse_syllabus("A >>>> B").unwrap();
    assert_eq!(result[0].subject_name, "A");
    assert_eq!(result[0].units[0].unit_name, "> B");
}

#[test]
fn names_outside_ascii_are_kept() {
    let result = parse_syllabus("Fran\u{e7}ais >>> Po\u{e9}sie >>> \u{e9}l\u{e9}gie, \u{65e5}\u{672c}").unwrap();
    assert_eq!(result[0].subject_name, "Fran\u{e7}ais");
    assert_eq!(result[0].units[0].unit_name, "Po\u{e9}sie");
    assert_eq!(result[0].units[0].topics, vec!["\u{e9}l\u{e9}gie", "\u{65e5}\u{672c}"]);
}

#[test]
fn parse_line_reads_subject_and_unit() {
    let line = chars("Bio >>> Cells >>> nucleus, membrane");
    let (subject, unit) = parse_line(&line).unwrap();
    assert_eq!(subject, "Bio");
    assert_eq!(unit.unit_name, "Cells");
    assert_eq!(unit.topics, vec!["nucleus", "membrane"]);
    assert!(parse_line(&chars("Bio")).is_none());
    assert!(parse_line(&chars("Bio >> Cells")).is_none());
}

#[test]
fn parse_topics_keeps_order_and_duplicates() {
    assert_eq!(parse_topics(&chars("b, a, b")), vec!["b", "a", "b"]);
    assert!(parse_topics(&chars("")).is_empty());
    assert!(parse_topics(&chars(" , ")).is_empty());
}

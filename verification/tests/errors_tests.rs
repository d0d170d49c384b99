use lidar_heightmap::errors::CommandlineParsingErrors;

#[test]
fn to_string_names_the_kind_and_the_reason() {
    assert_eq!(
        CommandlineParsingErrors::NumberOfPointsAndRadius("too few").to_string(),
        "Number of points and radius, too few"
    );
    assert_eq!(
        CommandlineParsingErrors::IncorrectArgumentStructure("no comma").to_string(),
        "Incorrect argument structure, no comma"
    );
    assert_eq!(
        CommandlineParsingErrors::IntegerParsing("not a number").to_string(),
        "Integer parsing, not a number"
    );
}

#[test]
fn to_string_with_an_empty_reason() {
    assert_eq!(CommandlineParsingErrors::IntegerParsing("").to_string(), "Integer parsing, ");
}

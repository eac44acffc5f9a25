use vhdl_lang::completion::{
    declaration_to_string, region_at, tokenize_input, AnyDesignUnit, AnyPrimaryUnit, Attribute,
    Declaration, DesignRoot, Kind, LexError, Lexed, Library, LibraryUnit, PackageDeclaration,
    RegionCategory, Token, UnitKey, Value, Visit,
};
use vhdl_lang::entity::{Designator, Operator};
use vhdl_lang::position::{Position, Range};

fn tok(kind: Kind, value: Value, start: u32, end: u32) -> Lexed {
    Ok(Token {
        kind,
        value,
        pos: Range::new(Position::new(0, start), Position::new(0, end)),
    })
}

fn ident(name: &str, start: u32, end: u32) -> Lexed {
    tok(Kind::Identifier, Value::Identifier(name.to_string()), start, end)
}

/// The tokens of `use ieee.std_logic_1164.all`.
fn use_clause() -> Vec<Lexed> {
    vec![
        tok(Kind::Use, Value::NoValue, 0, 3),
        ident("ieee", 4, 8),
        tok(Kind::Dot, Value::NoValue, 8, 9),
        ident("std_logic_1164", 9, 23),
        tok(Kind::Dot, Value::NoValue, 23, 24),
        tok(Kind::All, Value::NoValue, 24, 27),
    ]
}

fn kinds(tokens: &[Token]) -> Vec<Kind> {
    tokens.iter().map(|t| t.kind).collect()
}

fn package(name: &str, decl: Vec<Declaration>) -> LibraryUnit {
    LibraryUnit {
        key: UnitKey::Primary(name.to_string()),
        unit: AnyDesignUnit::Primary(AnyPrimaryUnit::Package(PackageDeclaration {
            ident: name.to_string(),
            decl,
        })),
    }
}

fn root() -> DesignRoot {
    let ieee = Library {
        name: "ieee".to_string(),
        units: vec![
            package(
                "std_logic_1164",
                vec![
                    Declaration::Type("std_ulogic".to_string()),
                    Declaration::Type("std_logic".to_string()),
                    Declaration::SubprogramDeclaration(Designator::OperatorSymbol(Operator::And)),
                    Declaration::SubprogramDeclaration(Designator::Identifier("to_bit".to_string())),
                    Declaration::SubprogramDeclaration(Designator::Identifier("to_bit".to_string())),
                    Declaration::SubprogramBody(Designator::Identifier("rising_edge".to_string())),
                    Declaration::Use,
                    Declaration::Configuration,
                    Declaration::Object("zero".to_string()),
                ],
            ),
            LibraryUnit {
                key: UnitKey::Secondary("std_logic_1164".to_string(), "body".to_string()),
                unit: AnyDesignUnit::Secondary,
            },
            LibraryUnit {
                key: UnitKey::Primary("ent".to_string()),
                unit: AnyDesignUnit::Primary(AnyPrimaryUnit::Entity),
            },
            package("numeric_std", vec![]),
        ],
    };
    let work = Library { name: "work".to_string(), units: vec![] };
    DesignRoot { libraries: vec![ieee, work] }
}

fn strings(v: &[&str]) -> Vec<String> {
    v.iter().map(|s| s.to_string()).collect()
}

fn declarations() -> Vec<String> {
    strings(&["std_ulogic", "std_logic", "\"and\"", "to_bit", "zero", "all"])
}

#[test]
fn tokenizing_an_empty_input() {
    let tokens = tokenize_input(&vec![], Position::new(0, 0));
    assert_eq!(tokens.len(), 0);
}

#[test]
fn tokenizing_stops_at_the_cursors_position() {
    let input = use_clause();
    // mid of `std_logic_1164`
    let mut cursor = Position::new(0, 21);
    let tokens = tokenize_input(&input, cursor);
    assert_eq!(kinds(&tokens), vec![Kind::Use, Kind::Identifier, Kind::Dot, Kind::Identifier]);
    // end of `std_logic_1164`
    cursor = Position::new(0, 23);
    let tokens = tokenize_input(&input, cursor);
    assert_eq!(kinds(&tokens), vec![Kind::Use, Kind::Identifier, Kind::Dot, Kind::Identifier]);
    // on the second `.`
    cursor = Position::new(0, 24);
    let tokens = tokenize_input(&input, cursor);
    assert_eq!(
        kinds(&tokens),
        vec![Kind::Use, Kind::Identifier, Kind::Dot, Kind::Identifier, Kind::Dot]
    );
    // inside `all`
    cursor = Position::new(0, 26);
    let tokens = tokenize_input(&input, cursor);
    assert_eq!(
        kinds(&tokens),
        vec![Kind::Use, Kind::Identifier, Kind::Dot, Kind::Identifier, Kind::Dot, Kind::All]
    );
}

#[test]
fn token_at_cursor_is_left_out() {
    let tokens = tokenize_input(&use_clause(), Position::new(0, 9));
    assert_eq!(kinds(&tokens), vec![Kind::Use, Kind::Identifier, Kind::Dot]);
}

#[test]
fn token_holding_cursor_is_kept() {
    let tokens = tokenize_input(&use_clause(), Position::new(0, 10));
    assert_eq!(tokens.len(), 4);
    assert_eq!(tokens[3].value, Value::Identifier("std_logic_1164".to_string()));
}

#[test]
fn cursor_past_end_keeps_all_tokens() {
    let tokens = tokenize_input(&use_clause(), Position::new(3, 0));
    assert_eq!(tokens.len(), 6);
}

#[test]
fn tokenizer_error_gives_nothing() {
    let mut input = use_clause();
    input.insert(2, Err(LexError));
    assert_eq!(tokenize_input(&input, Position::new(0, 26)).len(), 0);
    assert_eq!(root().list_completion_options(&input, Position::new(0, 26)), Vec::<String>::new());
    // an error after the first token at the cursor is never read
    assert_eq!(tokenize_input(&input, Position::new(0, 4)).len(), 1);
}

#[test]
fn completion_inside_primary_unit_name() {
    let r = root().list_completion_options(&use_clause(), Position::new(0, 21));
    assert_eq!(r, strings(&["std_logic_1164", "ent", "numeric_std"]));
}

#[test]
fn completion_at_end_of_primary_unit_name() {
    let r = root().list_completion_options(&use_clause(), Position::new(0, 23));
    assert_eq!(r, strings(&["std_logic_1164", "ent", "numeric_std"]));
}

#[test]
fn completion_after_second_dot() {
    let r = root().list_completion_options(&use_clause(), Position::new(0, 24));
    assert_eq!(r, declarations());
}

#[test]
fn completion_inside_all() {
    let r = root().list_completion_options(&use_clause(), Position::new(0, 26));
    assert_eq!(r, declarations());
}

#[test]
fn completion_of_empty_source() {
    let r = root().list_completion_options(&vec![], Position::new(0, 0));
    assert!(r.is_empty());
}

#[test]
fn completion_after_library_and_use() {
    let lib = vec![tok(Kind::Library, Value::NoValue, 0, 7)];
    assert_eq!(root().list_completion_options(&lib, Position::new(0, 8)), strings(&["ieee", "work"]));
    let r = root().list_completion_options(&use_clause(), Position::new(0, 4));
    assert_eq!(r, strings(&["ieee", "work"]));
    let r = root().list_completion_options(&use_clause(), Position::new(0, 6));
    assert_eq!(r, strings(&["ieee", "work"]));
}

#[test]
fn completion_after_first_dot() {
    let r = root().list_completion_options(&use_clause(), Position::new(0, 9));
    assert_eq!(r, strings(&["std_logic_1164", "ent", "numeric_std"]));
}

#[test]
fn completion_of_string_literal_selection() {
    let mut input = use_clause();
    input[5] = tok(Kind::StringLiteral, Value::String("and".to_string()), 24, 29);
    let r = root().list_completion_options(&input, Position::new(0, 26));
    assert_eq!(r, declarations());
}

#[test]
fn completion_of_unknown_library_or_unit() {
    let mut input = use_clause();
    input[1] = ident("nolib", 4, 8);
    assert!(root().list_completion_options(&input, Position::new(0, 21)).is_empty());
    assert!(root().list_completion_options(&input, Position::new(0, 24)).is_empty());
    let mut input = use_clause();
    input[3] = ident("nounit", 9, 23);
    assert!(root().list_completion_options(&input, Position::new(0, 24)).is_empty());
    let mut input = use_clause();
    input[3] = ident("ent", 9, 23);
    assert!(root().list_completion_options(&input, Position::new(0, 24)).is_empty());
    let mut input = use_clause();
    input[3] = ident("numeric_std", 9, 23);
    assert_eq!(root().list_completion_options(&input, Position::new(0, 24)), strings(&["all"]));
}

#[test]
fn completion_of_unrelated_tail() {
    let input = vec![ident("x", 0, 1), tok(Kind::SemiColon, Value::NoValue, 1, 2)];
    assert!(root().list_completion_options(&input, Position::new(0, 2)).is_empty());
}

#[test]
fn completion_is_stable_under_trailing_whitespace() {
    let mut shifted = use_clause();
    shifted[5] = tok(Kind::All, Value::NoValue, 30, 33);
    for col in [21, 23, 24] {
        let cursor = Position::new(0, col);
        assert_eq!(
            root().list_completion_options(&use_clause(), cursor),
            root().list_completion_options(&shifted, cursor)
        );
    }
}

#[test]
fn declaration_strings() {
    assert_eq!(
        declaration_to_string(&Declaration::Alias(Designator::OperatorSymbol(Operator::NE))),
        Some("\"/=\"".to_string())
    );
    assert_eq!(
        declaration_to_string(&Declaration::Attribute(Attribute::Specification("a".to_string()))),
        Some("a".to_string())
    );
    assert_eq!(
        declaration_to_string(&Declaration::Package("p".to_string())),
        Some("p".to_string())
    );
    assert_eq!(declaration_to_string(&Declaration::Use), None);
}

#[test]
fn region_at_picks_most_specific_region() {
    let r = |a: u32, b: u32| Range::new(Position::new(a, 0), Position::new(b, 0));
    let visits = vec![
        Visit::Source(2),
        Visit::Region(r(0, 50), RegionCategory::DeclarativeRegion),
        Visit::Source(1),
        Visit::Region(r(0, 20), RegionCategory::DeclarativeRegion),
        Visit::Region(r(2, 8), RegionCategory::DeclarativeRegion),
        Visit::Region(r(4, 6), RegionCategory::SequentialStatements),
        Visit::Region(r(10, 20), RegionCategory::ConcurrentStatements),
    ];
    assert_eq!(
        region_at(&visits, 1, Position::new(5, 3)),
        Some((RegionCategory::SequentialStatements, r(4, 6)))
    );
    assert_eq!(
        region_at(&visits, 1, Position::new(3, 0)),
        Some((RegionCategory::DeclarativeRegion, r(2, 8)))
    );
    assert_eq!(
        region_at(&visits, 1, Position::new(1, 0)),
        Some((RegionCategory::DeclarativeRegion, r(0, 20)))
    );
    assert_eq!(region_at(&visits, 1, Position::new(30, 0)), None);
    assert_eq!(region_at(&visits, 3, Position::new(5, 0)), None);
}

#[test]
fn region_with_equal_range_does_not_replace_kept_one() {
    let r = Range::new(Position::new(2, 0), Position::new(8, 0));
    let visits = vec![
        Visit::Source(1),
        Visit::Region(r, RegionCategory::DeclarativeRegion),
        Visit::Region(r, RegionCategory::SequentialStatements),
    ];
    assert_eq!(
        region_at(&visits, 1, Position::new(3, 0)),
        Some((RegionCategory::DeclarativeRegion, r))
    );
}

#[test]
fn completions_are_distinct() {
    for col in [4, 9, 21, 24, 26] {
        let r = root().list_completion_options(&use_clause(), Position::new(0, col));
        for (i, a) in r.iter().enumerate() {
            assert!(!r[i + 1..].contains(a), "{a} repeats at column {col}");
        }
    }
}

use vhdl_lang::completion::designator_to_string;
use vhdl_lang::entity::{
    AnyEntKind, Arena, Designator, EntityId, FormalKind, Mode, ObjectClass, Type, UniversalType,
};
use vhdl_lang::position::{Position, Range};
use vhdl_lang::region::{NamedEntities, Region};
use vhdl_lang::standard::{StandardRegion, UniversalTypes};

fn at(line: u32) -> Option<Range> {
    Some(Range::new(Position::new(line, 0), Position::new(line, 10)))
}

fn declare(arena: &mut Arena, region: &mut Region, name: &str, t: Type, line: u32) -> EntityId {
    let id = arena.explicit(Designator::Identifier(name.to_string()), AnyEntKind::Type(t), at(line));
    region.add(NamedEntities::Single(id));
    id
}

struct Std {
    st: StandardRegion,
    boolean: EntityId,
    bit: EntityId,
    integer: EntityId,
    time: EntityId,
    string: EntityId,
    bit_vector: EntityId,
}

fn standard() -> Std {
    let mut arena = Arena::new();
    let mut region = Region::new();
    let boolean = declare(&mut arena, &mut region, "BOOLEAN", Type::Enum, 1);
    let bit = declare(&mut arena, &mut region, "BIT", Type::Enum, 2);
    let character = declare(&mut arena, &mut region, "CHARACTER", Type::Enum, 3);
    let integer = declare(&mut arena, &mut region, "INTEGER", Type::Integer, 4);
    declare(&mut arena, &mut region, "NATURAL", Type::Subtype(integer), 5);
    declare(&mut arena, &mut region, "REAL", Type::Real, 6);
    let time = declare(&mut arena, &mut region, "TIME", Type::Physical, 7);
    let string = declare(&mut arena, &mut region, "STRING", Type::Array { indexes: 1, elem_type: character }, 8);
    declare(&mut arena, &mut region, "BOOLEAN_VECTOR", Type::Array { indexes: 1, elem_type: boolean }, 9);
    let bit_vector = declare(&mut arena, &mut region, "BIT_VECTOR", Type::Array { indexes: 1, elem_type: bit }, 10);
    declare(&mut arena, &mut region, "FILE_OPEN_KIND", Type::Enum, 11);
    declare(&mut arena, &mut region, "FILE_OPEN_STATUS", Type::Enum, 12);
    let st = StandardRegion::new(arena, region);
    Std { st, boolean, bit, integer, time, string, bit_vector }
}

fn add_type(st: &mut StandardRegion, name: &str, t: Type) -> EntityId {
    st.arena.explicit(Designator::Identifier(name.to_string()), AnyEntKind::Type(t), at(40))
}

fn names(st: &StandardRegion, ids: &[EntityId]) -> Vec<String> {
    ids.iter().map(|&i| designator_to_string(&st.arena.get(i).designator)).collect()
}

fn strings(v: &[&str]) -> Vec<String> {
    v.iter().map(|s| s.to_string()).collect()
}

const COMPARATORS: [&str; 6] = ["\"=\"", "\"/=\"", "\"<\"", "\"<=\"", "\">\"", "\">=\""];

fn with_comparators(head: &[&str]) -> Vec<String> {
    let mut v = strings(head);
    v.extend(strings(&COMPARATORS));
    v
}

fn return_type(st: &StandardRegion, id: EntityId) -> Option<EntityId> {
    match &st.arena.get(id).kind {
        AnyEntKind::Function { return_type, .. } => Some(*return_type),
        _ => None,
    }
}

fn param_types(st: &StandardRegion, id: EntityId) -> Vec<EntityId> {
    let formals = match &st.arena.get(id).kind {
        AnyEntKind::Function { formals, .. } => formals,
        AnyEntKind::Procedure { formals } => formals,
        _ => panic!("not a subprogram"),
    };
    (0..formals.len())
        .map(|i| match formals.get(i).kind {
            FormalKind::Object(o) => o.subtype,
            FormalKind::InterfaceFile(t) => t,
        })
        .collect()
}

#[test]
fn enum_type_implicits() {
    let mut s = standard();
    let color = add_type(&mut s.st, "COLOR", Type::Enum);
    let ids = s.st.type_implicits(color);
    assert_eq!(
        names(&s.st, &ids),
        with_comparators(&["TO_STRING", "MINIMUM", "MAXIMUM"])
    );
    for &i in &ids {
        assert_eq!(s.st.arena.get(i).parent, Some(color));
        assert_eq!(s.st.arena.get(i).decl_pos, at(40));
    }
    assert_eq!(return_type(&s.st, ids[0]), Some(s.string));
    assert_eq!(return_type(&s.st, ids[1]), Some(color));
    assert_eq!(return_type(&s.st, ids[3]), Some(s.boolean));
    assert_eq!(param_types(&s.st, ids[3]), vec![color, color]);
}

#[test]
fn integer_and_real_type_implicits() {
    let mut s = standard();
    let expected = with_comparators(&[
        "MINIMUM", "MAXIMUM", "TO_STRING", "\"-\"", "\"+\"", "\"abs\"", "\"+\"", "\"-\"",
    ]);
    for t in [Type::Integer, Type::Real] {
        let typ = add_type(&mut s.st, "T", t);
        let ids = s.st.type_implicits(typ);
        assert_eq!(ids.len(), 14);
        assert_eq!(names(&s.st, &ids), expected);
        assert_eq!(param_types(&s.st, ids[3]), vec![typ]);
        assert_eq!(param_types(&s.st, ids[6]), vec![typ, typ]);
        assert_eq!(return_type(&s.st, ids[6]), Some(typ));
    }
}

#[test]
fn physical_type_implicits() {
    let mut s = standard();
    let typ = add_type(&mut s.st, "DISTANCE", Type::Physical);
    let ids = s.st.type_implicits(typ);
    assert_eq!(
        names(&s.st, &ids),
        with_comparators(&["MINIMUM", "MAXIMUM", "\"-\"", "\"+\"", "\"abs\"", "\"+\"", "\"-\""])
    );
}

#[test]
fn record_type_implicits() {
    let mut s = standard();
    let typ = add_type(&mut s.st, "REC", Type::Record);
    let ids = s.st.type_implicits(typ);
    assert_eq!(names(&s.st, &ids), strings(&["\"=\"", "\"/=\""]));
}

#[test]
fn array_type_implicits() {
    let mut s = standard();
    let elem = s.integer;
    let arr = add_type(&mut s.st, "ARR", Type::Array { indexes: 1, elem_type: elem });
    let ids = s.st.type_implicits(arr);
    assert_eq!(
        names(&s.st, &ids),
        strings(&["TO_STRING", "\"=\"", "\"/=\"", "\"&\"", "\"&\"", "\"&\"", "\"&\""])
    );
    assert_eq!(param_types(&s.st, ids[3]), vec![arr, elem]);
    assert_eq!(param_types(&s.st, ids[4]), vec![elem, arr]);
    assert_eq!(param_types(&s.st, ids[5]), vec![arr, arr]);
    assert_eq!(param_types(&s.st, ids[6]), vec![elem, elem]);
    for &i in &ids[3..] {
        assert_eq!(return_type(&s.st, i), Some(arr));
        assert_eq!(s.st.arena.get(i).parent, Some(arr));
    }
    let matrix = add_type(&mut s.st, "MATRIX", Type::Array { indexes: 2, elem_type: elem });
    let ids = s.st.type_implicits(matrix);
    assert_eq!(names(&s.st, &ids), strings(&["TO_STRING", "\"=\"", "\"/=\""]));
}

#[test]
fn access_type_implicits() {
    let mut s = standard();
    let target = s.integer;
    let acc = add_type(&mut s.st, "PTR", Type::Access(target));
    let ids = s.st.type_implicits(acc);
    assert_eq!(names(&s.st, &ids), strings(&["DEALLOCATE", "\"=\"", "\"/=\""]));
    match &s.st.arena.get(ids[0]).kind {
        AnyEntKind::Procedure { formals } => {
            assert_eq!(formals.len(), 1);
            assert_eq!(formals.get(0).name, "P");
            match formals.get(0).kind {
                FormalKind::Object(o) => {
                    assert_eq!(o.class, ObjectClass::Variable);
                    assert_eq!(o.mode, Some(Mode::InOut));
                    assert_eq!(o.subtype, acc);
                }
                _ => panic!("DEALLOCATE takes an object"),
            }
        }
        _ => panic!("DEALLOCATE is a procedure"),
    }
}

#[test]
fn universal_and_other_types_have_no_implicits() {
    let mut s = standard();
    let pos = Range::new(Position::new(0, 0), Position::new(0, 1));
    let u = UniversalTypes::new(&mut s.st.arena, pos);
    assert_eq!(designator_to_string(&s.st.arena.get(u.integer).designator), "universal_integer");
    assert_eq!(designator_to_string(&s.st.arena.get(u.real).designator), "universal_real");
    let before = s.st.arena.len();
    assert!(s.st.type_implicits(u.integer).is_empty());
    assert!(s.st.type_implicits(u.real).is_empty());
    let target = s.integer;
    for t in [Type::File(target), Type::Subtype(target), Type::Protected, Type::Incomplete, Type::Interface] {
        let typ = add_type(&mut s.st, "X", t);
        assert!(s.st.type_implicits(typ).is_empty());
    }
    assert_eq!(s.st.arena.len(), before + 5);
}

#[test]
fn file_type_subprograms() {
    let mut s = standard();
    let elem = s.integer;
    let ft = add_type(&mut s.st, "FT", Type::File(elem));
    let ids = s.st.create_implicit_file_type_subprograms(ft, elem);
    assert_eq!(
        names(&s.st, &ids),
        strings(&["FILE_OPEN", "FILE_OPEN", "FILE_CLOSE", "READ", "WRITE", "FLUSH", "ENDFILE"])
    );
    let status = s.st.file_open_status();
    let kind = s.st.file_open_kind();
    assert_eq!(param_types(&s.st, ids[0]), vec![ft, s.string, kind]);
    assert_eq!(param_types(&s.st, ids[1]), vec![status, ft, s.string, kind]);
    match &s.st.arena.get(ids[1]).kind {
        AnyEntKind::Procedure { formals } => {
            assert_eq!(formals.get(0).name, "Status");
            match formals.get(0).kind {
                FormalKind::Object(o) => {
                    assert_eq!(o.mode, Some(Mode::Out));
                    assert!(!o.has_default);
                }
                _ => panic!("Status is an object"),
            }
            match formals.get(3).kind {
                FormalKind::Object(o) => assert!(o.has_default),
                _ => panic!("Open_Kind is an object"),
            }
        }
        _ => panic!("FILE_OPEN is a procedure"),
    }
    assert_eq!(return_type(&s.st, ids[6]), Some(s.boolean));
    for &i in &ids {
        assert_eq!(s.st.arena.get(i).parent, Some(ft));
    }
}

#[test]
fn end_of_package_implicits_are_attached() {
    let mut s = standard();
    let first = s.st.arena.len();
    let ids = s.st.end_of_package_implicits();
    // 5 enums of 9, INTEGER and REAL of 14, TIME of 13, 3 arrays of 7,
    // then 1 + 2 * 7 + 2 * 24 + 3
    assert_eq!(ids.len(), 5 * 9 + 2 * 14 + 13 + 3 * 7 + 1 + 14 + 48 + 3);
    assert_eq!(ids[0], first);
    for &i in &ids {
        let parent = s.st.arena.get(i).parent.unwrap();
        assert!(parent < first);
        assert!(s.st.arena.get(parent).implicits.contains(&i));
    }
    // TIME: 13 of its own and three TO_STRING
    assert_eq!(s.st.arena.get(s.time).implicits.len(), 15);
    // BIT: 9 of an enum and 7 logical operators
    assert_eq!(s.st.arena.get(s.bit).implicits.len(), 16);
    // BIT_VECTOR: 7 of an array and 24 logical operators
    assert_eq!(s.st.arena.get(s.bit_vector).implicits.len(), 31);
    let tail = &ids[ids.len() - 3..];
    assert_eq!(names(&s.st, tail), strings(&["TO_STRING", "TO_STRING", "TO_STRING"]));
    assert_eq!(param_types(&s.st, tail[2]), vec![s.time, s.time]);
}

#[test]
fn vector_operators_take_the_scalar_on_either_side() {
    let mut s = standard();
    let ids = s.st.end_of_package_implicits();
    let v = s.bit_vector;
    let b = s.bit;
    let ops: Vec<EntityId> = s.st.arena.get(v).implicits[7..11].to_vec();
    assert!(ids.contains(&ops[0]));
    assert_eq!(names(&s.st, &ops), strings(&["\"and\"", "\"and\"", "\"and\"", "\"and\""]));
    assert_eq!(param_types(&s.st, ops[0]), vec![v, v]);
    assert_eq!(return_type(&s.st, ops[0]), Some(v));
    assert_eq!(param_types(&s.st, ops[1]), vec![v]);
    assert_eq!(return_type(&s.st, ops[1]), Some(b));
    assert_eq!(param_types(&s.st, ops[2]), vec![v, b]);
    assert_eq!(return_type(&s.st, ops[2]), Some(v));
    assert_eq!(param_types(&s.st, ops[3]), vec![b, v]);
    assert_eq!(return_type(&s.st, ops[3]), Some(v));
}

#[test]
fn end_of_package_implicits_twice_agree() {
    let mut s1 = standard();
    let mut s2 = standard();
    let r1 = s1.st.end_of_package_implicits();
    let r2 = s2.st.end_of_package_implicits();
    assert_eq!(r1, r2);
    assert_eq!(names(&s1.st, &r1), names(&s2.st, &r2));
    for (&a, &b) in r1.iter().zip(r2.iter()) {
        assert_eq!(s1.st.arena.get(a).kind, s2.st.arena.get(b).kind);
    }
}

#[test]
fn lookup_type_finds_predefined_types() {
    let s = standard();
    assert_eq!(s.st.lookup_type("BOOLEAN"), s.boolean);
    assert_eq!(s.st.lookup_type("TIME"), s.time);
    assert_eq!(s.st.time(), s.time);
    assert_eq!(s.st.string(), s.string);
    assert_ne!(s.st.natural(), s.integer);
    assert_ne!(s.st.real_type(), s.integer);
}

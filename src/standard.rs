use vstd::prelude::*;
use crate::entity::{
    explicit_view, hosts_implicits, implicit_view, AnyEntKind, Arena, Designator, DesignatorView, EntityId,
    EntityView, Formal, FormalKind, FormalRegion, FormalView, KindView, Mode, Object, ObjectClass,
    Operator, Type, UniversalType,
};
use crate::position::Range;
use crate::region::{NamedEntities, Region};

verus! {

/// The fresh ids `start, start + 1, ..., start + n - 1`.
pub open spec fn fresh_ids(start: nat, n: nat) -> Seq<EntityId> {
    Seq::new(n, |i: int| (start + i) as EntityId)
}

/// A parameter `name: in T` of class constant.
pub open spec fn constant_in(name: Seq<char>, t: EntityId) -> FormalView {
    FormalView {
        name,
        kind: FormalKind::Object(
            Object { class: ObjectClass::Constant, mode: Some(Mode::In), subtype: t, has_default: false },
        ),
    }
}

/// A parameter of class variable with the given mode.
pub open spec fn variable_param(name: Seq<char>, mode: Mode, t: EntityId) -> FormalView {
    FormalView {
        name,
        kind: FormalKind::Object(
            Object { class: ObjectClass::Variable, mode: Some(mode), subtype: t, has_default: false },
        ),
    }
}

/// An implicit function of `parent`, declared where `parent` is.
pub open spec fn function_view(
    pos: Option<Range>,
    parent: EntityId,
    designator: DesignatorView,
    formals: Seq<FormalView>,
    return_type: EntityId,
) -> EntityView {
    implicit_view(parent, designator, KindView::Function { formals, return_type }, pos)
}

/// An implicit procedure of `parent`, declared where `parent` is.
pub open spec fn procedure_view(
    pos: Option<Range>,
    parent: EntityId,
    designator: DesignatorView,
    formals: Seq<FormalView>,
) -> EntityView {
    implicit_view(parent, designator, KindView::Procedure { formals }, pos)
}

/// `function TO_STRING (VALUE: T) return STRING`
pub open spec fn to_string_view(pos: Option<Range>, t: EntityId, string: EntityId) -> EntityView {
    function_view(
        pos,
        t,
        DesignatorView::Identifier("TO_STRING"@),
        seq![constant_in("VALUE"@, t)],
        string,
    )
}

/// `function MINIMUM (L, R: T) return T` and its `MAXIMUM` twin.
pub open spec fn min_max_view(pos: Option<Range>, name: Seq<char>, t: EntityId) -> EntityView {
    function_view(
        pos,
        t,
        DesignatorView::Identifier(name),
        seq![constant_in("L"@, t), constant_in("R"@, t)],
        t,
    )
}

/// `function op (V: T) return RET`
pub open spec fn unary_view(pos: Option<Range>, op: Operator, t: EntityId, ret: EntityId) -> EntityView {
    function_view(pos, t, DesignatorView::OperatorSymbol(op), seq![constant_in("V"@, t)], ret)
}

/// `function op (L: LEFT; R: RIGHT) return RET`, an implicit of `of`.
pub open spec fn binary_view(
    pos: Option<Range>,
    op: Operator,
    of: EntityId,
    left: EntityId,
    right: EntityId,
    ret: EntityId,
) -> EntityView {
    function_view(
        pos,
        of,
        DesignatorView::OperatorSymbol(op),
        seq![constant_in("L"@, left), constant_in("R"@, right)],
        ret,
    )
}

pub open spec fn symmetric_binary_view(pos: Option<Range>, op: Operator, t: EntityId) -> EntityView {
    binary_view(pos, op, t, t, t, t)
}

pub open spec fn comparison_view(pos: Option<Range>, op: Operator, t: EntityId, boolean: EntityId) -> EntityView {
    binary_view(pos, op, t, t, t, boolean)
}

/// `procedure DEALLOCATE (P: inout AT)`
pub open spec fn deallocate_view(pos: Option<Range>, t: EntityId) -> EntityView {
    procedure_view(
        pos,
        t,
        DesignatorView::Identifier("DEALLOCATE"@),
        seq![variable_param("P"@, Mode::InOut, t)],
    )
}

/// The entry names a single type called `name`.
pub open spec fn names_type(a: Seq<EntityView>, n: NamedEntities, name: Seq<char>) -> bool {
    match n {
        NamedEntities::Single(id) => id < a.len() && a[id as int].designator
            == DesignatorView::Identifier(name) && a[id as int].kind is Type,
        _ => false,
    }
}

/// The first entry of `entries[..n]` that is a single type called `name`.
pub open spec fn find_type(
    a: Seq<EntityView>,
    entries: Seq<NamedEntities>,
    name: Seq<char>,
    n: nat,
) -> Option<EntityId>
    decreases n,
{
    if n == 0 {
        None
    } else {
        match find_type(a, entries, name, (n - 1) as nat) {
            Some(id) => Some(id),
            None => if names_type(a, entries[n - 1], name) {
                Some(entries[n - 1]->Single_0)
            } else {
                None
            },
        }
    }
}

/// The type that the region declares under `name`, if any.
pub open spec fn region_type(a: Seq<EntityView>, r: Region, name: Seq<char>) -> Option<EntityId> {
    find_type(a, r.entries@, name, r.entries@.len())
}

/// The two universal types, installed before the standard package.
#[derive(Clone, Copy, Debug)]
pub struct UniversalTypes {
    pub integer: EntityId,
    pub real: EntityId,
}

impl UniversalTypes {
    pub fn new(arena: &mut Arena, pos: Range) -> (r: Self)
        requires
            old(arena)@.len() + 2 < usize::MAX,
        ensures
            r.integer == old(arena)@.len(),
            r.real == old(arena)@.len() + 1,
            final(arena)@ == old(arena)@ + seq![
                explicit_view(
                    DesignatorView::Identifier("universal_integer"@),
                    KindView::Type(Type::Universal(UniversalType::Integer)),
                    Some(pos),
                ),
                explicit_view(
                    DesignatorView::Identifier("universal_real"@),
                    KindView::Type(Type::Universal(UniversalType::Real)),
                    Some(pos),
                ),
            ],
    {
        let integer = arena.explicit(
            Designator::Identifier("universal_integer".to_owned()),
            AnyEntKind::Type(Type::Universal(UniversalType::Integer)),
            Some(pos),
        );
        let real_ent = arena.explicit(
            Designator::Identifier("universal_real".to_owned()),
            AnyEntKind::Type(Type::Universal(UniversalType::Real)),
            Some(pos),
        );
        assert(arena@ =~= old(arena)@ + seq![
            arena@[old(arena)@.len() as int],
            arena@[old(arena)@.len() + 1 as int],
        ]);
        UniversalTypes { integer, real: real_ent }
    }
}


pub open spec fn comparator_views(pos: Option<Range>, t: EntityId, boolean: EntityId) -> Seq<EntityView> {
    seq![
        comparison_view(pos, Operator::EQ, t, boolean),
        comparison_view(pos, Operator::NE, t, boolean),
        comparison_view(pos, Operator::LT, t, boolean),
        comparison_view(pos, Operator::LTE, t, boolean),
        comparison_view(pos, Operator::GT, t, boolean),
        comparison_view(pos, Operator::GTE, t, boolean),
    ]
}

/// The implicits of an integer or real type.
pub open spec fn numeric_views(
    pos: Option<Range>,
    t: EntityId,
    boolean: EntityId,
    string: EntityId,
) -> Seq<EntityView> {
    seq![
        min_max_view(pos, "MINIMUM"@, t),
        min_max_view(pos, "MAXIMUM"@, t),
        to_string_view(pos, t, string),
        unary_view(pos, Operator::Minus, t, t),
        unary_view(pos, Operator::Plus, t, t),
        unary_view(pos, Operator::Abs, t, t),
        symmetric_binary_view(pos, Operator::Plus, t),
        symmetric_binary_view(pos, Operator::Minus, t),
    ] + comparator_views(pos, t, boolean)
}

/// The implicits of a physical type: those of a numeric type but `TO_STRING`.
pub open spec fn physical_views(pos: Option<Range>, t: EntityId, boolean: EntityId) -> Seq<EntityView> {
    seq![
        min_max_view(pos, "MINIMUM"@, t),
        min_max_view(pos, "MAXIMUM"@, t),
        unary_view(pos, Operator::Minus, t, t),
        unary_view(pos, Operator::Plus, t, t),
        unary_view(pos, Operator::Abs, t, t),
        symmetric_binary_view(pos, Operator::Plus, t),
        symmetric_binary_view(pos, Operator::Minus, t),
    ] + comparator_views(pos, t, boolean)
}

pub open spec fn enum_views(
    pos: Option<Range>,
    t: EntityId,
    boolean: EntityId,
    string: EntityId,
) -> Seq<EntityView> {
    seq![
        to_string_view(pos, t, string),
        min_max_view(pos, "MINIMUM"@, t),
        min_max_view(pos, "MAXIMUM"@, t),
    ] + comparator_views(pos, t, boolean)
}

pub open spec fn record_views(pos: Option<Range>, t: EntityId, boolean: EntityId) -> Seq<EntityView> {
    seq![
        comparison_view(pos, Operator::EQ, t, boolean),
        comparison_view(pos, Operator::NE, t, boolean),
    ]
}

/// `A & E`, `E & A`, `A & A` and `E & E`, each returning `A` and belonging to `A`.
pub open spec fn concatenation_views(pos: Option<Range>, a: EntityId, e: EntityId) -> Seq<EntityView> {
    seq![
        binary_view(pos, Operator::Concat, a, a, e, a),
        binary_view(pos, Operator::Concat, a, e, a, a),
        symmetric_binary_view(pos, Operator::Concat, a),
        binary_view(pos, Operator::Concat, a, e, e, a),
    ]
}

/// The implicits of an array type; concatenations only for one dimension.
pub open spec fn array_views(
    pos: Option<Range>,
    t: EntityId,
    indexes: usize,
    elem: EntityId,
    boolean: EntityId,
    string: EntityId,
) -> Seq<EntityView> {
    seq![
        to_string_view(pos, t, string),
        comparison_view(pos, Operator::EQ, t, boolean),
        comparison_view(pos, Operator::NE, t, boolean),
    ] + if indexes == 1 {
        concatenation_views(pos, t, elem)
    } else {
        Seq::empty()
    }
}

pub open spec fn access_views(pos: Option<Range>, t: EntityId, boolean: EntityId) -> Seq<EntityView> {
    seq![
        deallocate_view(pos, t),
        comparison_view(pos, Operator::EQ, t, boolean),
        comparison_view(pos, Operator::NE, t, boolean),
    ]
}

/// The implicit declarations that the entity `e`, with id `t`, calls for.
pub open spec fn type_implicit_views(
    e: EntityView,
    t: EntityId,
    boolean: EntityId,
    string: EntityId,
) -> Seq<EntityView> {
    let pos = e.decl_pos;
    match e.kind {
        KindView::Type(ty) => match ty {
            Type::Access(_) => access_views(pos, t, boolean),
            Type::Enum => enum_views(pos, t, boolean, string),
            Type::Integer | Type::Real => numeric_views(pos, t, boolean, string),
            Type::Record => record_views(pos, t, boolean),
            Type::Physical => physical_views(pos, t, boolean),
            Type::Array { indexes, elem_type } => array_views(pos, t, indexes, elem_type, boolean, string),
            _ => Seq::empty(),
        },
        _ => Seq::empty(),
    }
}

/// `file F: FT`
pub open spec fn file_param(ft: EntityId) -> FormalView {
    FormalView { name: "F"@, kind: FormalKind::InterfaceFile(ft) }
}

/// `Open_Kind: in FILE_OPEN_KIND := READ_MODE`, the one parameter with a default.
pub open spec fn open_kind_param(file_open_kind: EntityId) -> FormalView {
    FormalView {
        name: "Open_Kind"@,
        kind: FormalKind::Object(
            Object {
                class: ObjectClass::Constant,
                mode: Some(Mode::In),
                subtype: file_open_kind,
                has_default: true,
            },
        ),
    }
}

/// The subprograms of a file type `ft` whose elements are of type `tm`.
pub open spec fn file_subprogram_views(
    pos: Option<Range>,
    ft: EntityId,
    tm: EntityId,
    string: EntityId,
    boolean: EntityId,
    file_open_kind: EntityId,
    file_open_status: EntityId,
) -> Seq<EntityView> {
    seq![
        procedure_view(
            pos,
            ft,
            DesignatorView::Identifier("FILE_OPEN"@),
            seq![file_param(ft), constant_in("External_Name"@, string), open_kind_param(file_open_kind)],
        ),
        procedure_view(
            pos,
            ft,
            DesignatorView::Identifier("FILE_OPEN"@),
            seq![
                variable_param("Status"@, Mode::Out, file_open_status),
                file_param(ft),
                constant_in("External_Name"@, string),
                open_kind_param(file_open_kind),
            ],
        ),
        procedure_view(pos, ft, DesignatorView::Identifier("FILE_CLOSE"@), seq![file_param(ft)]),
        procedure_view(
            pos,
            ft,
            DesignatorView::Identifier("READ"@),
            seq![file_param(ft), variable_param("VALUE"@, Mode::Out, tm)],
        ),
        procedure_view(
            pos,
            ft,
            DesignatorView::Identifier("WRITE"@),
            seq![file_param(ft), constant_in("VALUE"@, tm)],
        ),
        procedure_view(pos, ft, DesignatorView::Identifier("FLUSH"@), seq![file_param(ft)]),
        function_view(pos, ft, DesignatorView::Identifier("ENDFILE"@), seq![file_param(ft)], boolean),
    ]
}

/// The logical operators of `BOOLEAN` and `BIT`.
pub open spec fn logical_views(pos: Option<Range>, t: EntityId) -> Seq<EntityView> {
    seq![
        symmetric_binary_view(pos, Operator::And, t),
        symmetric_binary_view(pos, Operator::Or, t),
        symmetric_binary_view(pos, Operator::Nand, t),
        symmetric_binary_view(pos, Operator::Nor, t),
        symmetric_binary_view(pos, Operator::Xor, t),
        symmetric_binary_view(pos, Operator::Xnor, t),
        unary_view(pos, Operator::Not, t, t),
    ]
}

/// `A op A -> A`, `op A -> S`, `A op S -> A` and `S op A -> A` for an array `A` of `S`.
pub open spec fn vector_op_views(pos: Option<Range>, op: Operator, a: EntityId, s: EntityId) -> Seq<EntityView> {
    seq![
        symmetric_binary_view(pos, op, a),
        unary_view(pos, op, a, s),
        binary_view(pos, op, a, a, s, a),
        binary_view(pos, op, a, s, a, a),
    ]
}

pub open spec fn vector_views(pos: Option<Range>, a: EntityId, s: EntityId) -> Seq<EntityView> {
    vector_op_views(pos, Operator::And, a, s) + vector_op_views(pos, Operator::Or, a, s)
        + vector_op_views(pos, Operator::Nand, a, s) + vector_op_views(pos, Operator::Nor, a, s)
        + vector_op_views(pos, Operator::Xor, a, s) + vector_op_views(pos, Operator::Xnor, a, s)
}

/// `function TO_STRING (VALUE: T; name: U) return STRING`
pub open spec fn to_string_with_view(
    pos: Option<Range>,
    t: EntityId,
    name: Seq<char>,
    u: EntityId,
    string: EntityId,
) -> EntityView {
    function_view(
        pos,
        t,
        DesignatorView::Identifier("TO_STRING"@),
        seq![constant_in("VALUE"@, t), constant_in(name, u)],
        string,
    )
}

/// The implicits of the entities that `entries[..n]` names, in order.
pub open spec fn region_views(
    a: Seq<EntityView>,
    entries: Seq<NamedEntities>,
    n: nat,
    boolean: EntityId,
    string: EntityId,
) -> Seq<EntityView>
    decreases n,
{
    if n == 0 {
        Seq::empty()
    } else {
        region_views(a, entries, (n - 1) as nat, boolean, string) + match entries[n - 1] {
            NamedEntities::Single(id) => if id < a.len() {
                type_implicit_views(a[id as int], id, boolean, string)
            } else {
                Seq::empty()
            },
            _ => Seq::empty(),
        }
    }
}

/// Every implicit declaration of the standard package, in the order made.
pub open spec fn end_of_package_views(st: StandardRegion) -> Seq<EntityView> {
    let a = st.arena@;
    let entries = st.region.entries@;
    let boolean = region_type(a, st.region, "BOOLEAN"@)->0;
    let bit = region_type(a, st.region, "BIT"@)->0;
    let boolean_vector = region_type(a, st.region, "BOOLEAN_VECTOR"@)->0;
    let bit_vector = region_type(a, st.region, "BIT_VECTOR"@)->0;
    let real_pos = a[st.real_type as int].decl_pos;
    let time_pos = a[st.time_type as int].decl_pos;
    region_views(a, entries, entries.len(), st.boolean_type, st.string_type)
        + seq![to_string_view(time_pos, st.time_type, st.string_type)]
        + logical_views(a[boolean as int].decl_pos, boolean)
        + logical_views(a[bit as int].decl_pos, bit)
        + vector_views(a[boolean_vector as int].decl_pos, boolean_vector, boolean)
        + vector_views(a[bit_vector as int].decl_pos, bit_vector, bit)
        + seq![
            to_string_with_view(real_pos, st.real_type, "DIGITS"@, st.natural_type, st.string_type),
            to_string_with_view(real_pos, st.real_type, "FORMAT"@, st.string_type, st.string_type),
            to_string_with_view(time_pos, st.time_type, "UNIT"@, st.time_type, st.string_type),
        ]
}

/// Whether the entity `k` of `b` is an implicit of `p`.
pub open spec fn belongs_to(b: Seq<EntityView>, p: int) -> spec_fn(EntityId) -> bool {
    |k: EntityId| k < b.len() && b[k as int].parent == Some(p as EntityId)
}

/// The ids among `ids` of the entities of `b` that belong to `p`, where `p`
/// is a type whose kind has a list of implicits.
pub open spec fn attached(b: Seq<EntityView>, ids: Seq<EntityId>, p: int) -> Seq<EntityId> {
    if hosts_implicits(b[p]) {
        ids.filter(belongs_to(b, p))
    } else {
        Seq::empty()
    }
}

/// The arena `b` once each of `ids` is pushed, in order, onto its parent's implicits.
pub open spec fn with_attached(b: Seq<EntityView>, ids: Seq<EntityId>) -> Seq<EntityView> {
    Seq::new(b.len(), |p: int| EntityView { implicits: b[p].implicits + attached(b, ids, p), ..b[p] })
}

proof fn lemma_find_type(a: Seq<EntityView>, entries: Seq<NamedEntities>, name: Seq<char>, n: nat, m: nat)
    requires
        n <= m <= entries.len(),
    ensures
        find_type(a, entries, name, n) matches Some(id) ==> id < a.len()
            && a[id as int].designator == DesignatorView::Identifier(name) && a[id as int].kind is Type
            && find_type(a, entries, name, m) == Some(id),
    decreases m,
{
    if n < m {
        lemma_find_type(a, entries, name, n, (m - 1) as nat);
    } else if n > 0 {
        lemma_find_type(a, entries, name, (n - 1) as nat, (n - 1) as nat);
    }
}

/// `b` keeps the names and kinds of the entities of `a`, and adds no type.
pub open spec fn extends(a: Seq<EntityView>, b: Seq<EntityView>) -> bool {
    &&& a.len() <= b.len()
    &&& forall|i: int| 0 <= i < a.len() ==> #[trigger] b[i].designator == a[i].designator && b[i].kind == a[i].kind
    &&& forall|i: int| a.len() <= i < b.len() ==> !(#[trigger] b[i].kind is Type)
}

proof fn lemma_find_type_extends(
    a: Seq<EntityView>,
    b: Seq<EntityView>,
    entries: Seq<NamedEntities>,
    name: Seq<char>,
    n: nat,
)
    requires
        extends(a, b),
        n <= entries.len(),
    ensures
        find_type(a, entries, name, n) == find_type(b, entries, name, n),
    decreases n,
{
    if n > 0 {
        lemma_find_type_extends(a, b, entries, name, (n - 1) as nat);
        if let NamedEntities::Single(id) = entries[n - 1] {
            if id < a.len() {
                assert(b[id as int].designator == a[id as int].designator && b[id as int].kind == a[id as int].kind);
            } else if id < b.len() {
                assert(!(b[id as int].kind is Type));
            }
        }
    }
}

/// Looks up the type that `region` declares under `name`.
fn find_type_in(arena: &Arena, region: &Region, name: &str) -> (r: EntityId)
    requires
        region_type(arena@, *region, name@) is Some,
    ensures
        r == region_type(arena@, *region, name@)->0,
        r < arena@.len(),
{
    let want = name.to_owned();
    let mut i: usize = 0;
    while i < region.entries.len()
        invariant
            i <= region.entries@.len(),
            want@ == name@,
            find_type(arena@, region.entries@, name@, i as nat) is None,
        decreases region.entries@.len() - i,
    {
        if let NamedEntities::Single(id) = &region.entries[i] {
            let id = *id;
            if id < arena.len() {
                let e = arena.get(id);
                if e.is_type() {
                    if let Designator::Identifier(s) = &e.designator {
                        if *s == want {
                            proof {
                                lemma_find_type(arena@, region.entries@, name@, (i + 1) as nat, region.entries@.len());
                            }
                            return id;
                        }
                    }
                }
            }
        }
        i += 1;
    }
    proof {
        lemma_find_type(arena@, region.entries@, name@, i as nat, i as nat);
    }
    0
}

/// A parameter `name: in T` of class constant.
fn constant_in_param(name: &str, t: EntityId) -> (r: Formal)
    ensures
        r@ == constant_in(name@, t),
{
    Formal {
        name: name.to_owned(),
        kind: FormalKind::Object(
            Object { class: ObjectClass::Constant, mode: Some(Mode::In), subtype: t, has_default: false },
        ),
    }
}

/// `file F: FT`
fn file_param_of(ft: EntityId) -> (r: Formal)
    ensures
        r@ == file_param(ft),
{
    Formal { name: "F".to_owned(), kind: FormalKind::InterfaceFile(ft) }
}

/// `Open_Kind: in FILE_OPEN_KIND := READ_MODE`
fn open_kind_param_of(file_open_kind: EntityId) -> (r: Formal)
    ensures
        r@ == open_kind_param(file_open_kind),
{
    Formal {
        name: "Open_Kind".to_owned(),
        kind: FormalKind::Object(
            Object {
                class: ObjectClass::Constant,
                mode: Some(Mode::In),
                subtype: file_open_kind,
                has_default: true,
            },
        ),
    }
}

/// A parameter of class variable with the given mode.
fn variable_param_of(name: &str, mode: Mode, t: EntityId) -> (r: Formal)
    ensures
        r@ == variable_param(name@, mode, t),
{
    Formal {
        name: name.to_owned(),
        kind: FormalKind::Object(
            Object { class: ObjectClass::Variable, mode: Some(mode), subtype: t, has_default: false },
        ),
    }
}

/// The standard package's region, the arena that holds its entities, and the
/// predefined types that implicit declarations refer to.
#[derive(Debug)]
pub struct StandardRegion {
    pub arena: Arena,
    pub region: Region,
    pub string_type: EntityId,
    pub boolean_type: EntityId,
    pub natural_type: EntityId,
    pub real_type: EntityId,
    pub time_type: EntityId,
    pub file_open_kind_type: EntityId,
    pub file_open_status_type: EntityId,
}

impl StandardRegion {
    /// Each predefined type is the one that the region declares under its name.
    pub open spec fn wf(&self) -> bool {
        let n = self.arena@.len();
        &&& region_type(self.arena@, self.region, "STRING"@) == Some(self.string_type)
        &&& region_type(self.arena@, self.region, "BOOLEAN"@) == Some(self.boolean_type)
        &&& region_type(self.arena@, self.region, "NATURAL"@) == Some(self.natural_type)
        &&& region_type(self.arena@, self.region, "REAL"@) == Some(self.real_type)
        &&& region_type(self.arena@, self.region, "TIME"@) == Some(self.time_type)
        &&& region_type(self.arena@, self.region, "FILE_OPEN_KIND"@) == Some(self.file_open_kind_type)
        &&& region_type(self.arena@, self.region, "FILE_OPEN_STATUS"@) == Some(self.file_open_status_type)
        &&& self.string_type < n
        &&& self.boolean_type < n
        &&& self.natural_type < n
        &&& self.real_type < n
        &&& self.time_type < n
        &&& self.file_open_kind_type < n
        &&& self.file_open_status_type < n
    }

    /// Everything but the arena is as in `o`.
    pub open spec fn keeps(&self, o: &Self) -> bool {
        &&& self.region == o.region
        &&& self.string_type == o.string_type
        &&& self.boolean_type == o.boolean_type
        &&& self.natural_type == o.natural_type
        &&& self.real_type == o.real_type
        &&& self.time_type == o.time_type
        &&& self.file_open_kind_type == o.file_open_kind_type
        &&& self.file_open_status_type == o.file_open_status_type
    }

    proof fn lemma_wf_extends(&self, o: &Self)
        requires
            o.wf(),
            self.keeps(o),
            extends(o.arena@, self.arena@),
        ensures
            self.wf(),
    {
        let n = self.region.entries@.len();
        lemma_find_type_extends(o.arena@, self.arena@, self.region.entries@, "STRING"@, n);
        lemma_find_type_extends(o.arena@, self.arena@, self.region.entries@, "BOOLEAN"@, n);
        lemma_find_type_extends(o.arena@, self.arena@, self.region.entries@, "NATURAL"@, n);
        lemma_find_type_extends(o.arena@, self.arena@, self.region.entries@, "REAL"@, n);
        lemma_find_type_extends(o.arena@, self.arena@, self.region.entries@, "TIME"@, n);
        lemma_find_type_extends(o.arena@, self.arena@, self.region.entries@, "FILE_OPEN_KIND"@, n);
        lemma_find_type_extends(o.arena@, self.arena@, self.region.entries@, "FILE_OPEN_STATUS"@, n);
    }

    /// The arena can take `k` more entities.
    pub open spec fn room(&self, k: nat) -> bool {
        self.arena@.len() + k < usize::MAX
    }

    pub open spec fn pos(&self, t: EntityId) -> Option<Range> {
        self.arena@[t as int].decl_pos
    }

    /// Binds the predefined types of `region`, which must all be declared there.
    pub fn new(arena: Arena, region: Region) -> (r: Self)
        requires
            region_type(arena@, region, "STRING"@) is Some,
            region_type(arena@, region, "BOOLEAN"@) is Some,
            region_type(arena@, region, "NATURAL"@) is Some,
            region_type(arena@, region, "REAL"@) is Some,
            region_type(arena@, region, "TIME"@) is Some,
            region_type(arena@, region, "FILE_OPEN_KIND"@) is Some,
            region_type(arena@, region, "FILE_OPEN_STATUS"@) is Some,
        ensures
            r.wf(),
            r.arena@ == arena@,
            r.region == region,
            r.string_type == region_type(arena@, region, "STRING"@)->0,
            r.boolean_type == region_type(arena@, region, "BOOLEAN"@)->0,
            r.natural_type == region_type(arena@, region, "NATURAL"@)->0,
            r.real_type == region_type(arena@, region, "REAL"@)->0,
            r.time_type == region_type(arena@, region, "TIME"@)->0,
            r.file_open_kind_type == region_type(arena@, region, "FILE_OPEN_KIND"@)->0,
            r.file_open_status_type == region_type(arena@, region, "FILE_OPEN_STATUS"@)->0,
    {
        let string_type = find_type_in(&arena, &region, "STRING");
        let boolean_type = find_type_in(&arena, &region, "BOOLEAN");
        let natural_type = find_type_in(&arena, &region, "NATURAL");
        let real_type = find_type_in(&arena, &region, "REAL");
        let time_type = find_type_in(&arena, &region, "TIME");
        let file_open_kind_type = find_type_in(&arena, &region, "FILE_OPEN_KIND");
        let file_open_status_type = find_type_in(&arena, &region, "FILE_OPEN_STATUS");
        StandardRegion {
            arena,
            region,
            string_type,
            boolean_type,
            natural_type,
            real_type,
            time_type,
            file_open_kind_type,
            file_open_status_type,
        }
    }

    fn symbol(&self, name: &str) -> (r: Designator)
        ensures
            r@ == DesignatorView::Identifier(name@),
    {
        Designator::Identifier(name.to_owned())
    }

    /// The type that the standard region declares under `name`.
    pub fn lookup_type(&self, name: &str) -> (r: EntityId)
        requires
            region_type(self.arena@, self.region, name@) is Some,
        ensures
            r == region_type(self.arena@, self.region, name@)->0,
            r < self.arena@.len(),
    {
        find_type_in(&self.arena, &self.region, name)
    }

    pub fn string(&self) -> (r: EntityId)
        ensures
            r == self.string_type,
    {
        self.string_type
    }

    pub fn boolean(&self) -> (r: EntityId)
        ensures
            r == self.boolean_type,
    {
        self.boolean_type
    }

    pub fn natural(&self) -> (r: EntityId)
        ensures
            r == self.natural_type,
    {
        self.natural_type
    }

    pub fn real_type(&self) -> (r: EntityId)
        ensures
            r == self.real_type,
    {
        self.real_type
    }

    pub fn time(&self) -> (r: EntityId)
        ensures
            r == self.time_type,
    {
        self.time_type
    }

    pub fn file_open_kind(&self) -> (r: EntityId)
        ensures
            r == self.file_open_kind_type,
    {
        self.file_open_kind_type
    }

    pub fn file_open_status(&self) -> (r: EntityId)
        ensures
            r == self.file_open_status_type,
    {
        self.file_open_status_type
    }

    /// Allocates an implicit function of `parent`, declared where `parent` is.
    fn new_function(
        &mut self,
        parent: EntityId,
        designator: Designator,
        formals: FormalRegion,
        return_type: EntityId,
    ) -> (r: EntityId)
        requires
            old(self).wf(),
            parent < old(self).arena@.len(),
            old(self).room(1),
        ensures
            final(self).wf(),
            final(self).keeps(old(self)),
            r == old(self).arena@.len(),
            final(self).arena@ == old(self).arena@.push(
                function_view(old(self).pos(parent), parent, designator@, formals@, return_type),
            ),
    {
        let pos = self.arena.get(parent).decl_pos;
        let r = self.arena.implicit(parent, designator, AnyEntKind::new_function_decl(formals, return_type), pos);
        proof {
            self.lemma_wf_extends(old(self));
        }
        r
    }

    /// Allocates an implicit procedure of `parent`, declared where `parent` is.
    fn new_procedure(&mut self, parent: EntityId, designator: Designator, formals: FormalRegion) -> (r: EntityId)
        requires
            old(self).wf(),
            parent < old(self).arena@.len(),
            old(self).room(1),
        ensures
            final(self).wf(),
            final(self).keeps(old(self)),
            r == old(self).arena@.len(),
            final(self).arena@ == old(self).arena@.push(
                procedure_view(old(self).pos(parent), parent, designator@, formals@),
            ),
    {
        let pos = self.arena.get(parent).decl_pos;
        let r = self.arena.implicit(parent, designator, AnyEntKind::new_procedure_decl(formals), pos);
        proof {
            self.lemma_wf_extends(old(self));
        }
        r
    }

    /// Creates `function TO_STRING (VALUE: T) return STRING`.
    pub fn create_to_string(&mut self, type_ent: EntityId) -> (r: EntityId)
        requires
            old(self).wf(),
            type_ent < old(self).arena@.len(),
            old(self).room(1),
        ensures
            final(self).wf(),
            final(self).keeps(old(self)),
            r == old(self).arena@.len(),
            final(self).arena@ == old(self).arena@.push(
                to_string_view(old(self).pos(type_ent), type_ent, old(self).string_type),
            ),
    {
        let mut formals = FormalRegion::new_params();
        formals.add(constant_in_param("VALUE", type_ent));
        let d = self.symbol("TO_STRING");
        let s = self.string();
        self.new_function(type_ent, d, formals, s)
    }

    /// Creates `function MINIMUM (L, R: T) return T`, or `MAXIMUM`.
    fn create_min_or_maximum(&mut self, name: &str, type_ent: EntityId) -> (r: EntityId)
        requires
            old(self).wf(),
            type_ent < old(self).arena@.len(),
            old(self).room(1),
        ensures
            final(self).wf(),
            final(self).keeps(old(self)),
            r == old(self).arena@.len(),
            final(self).arena@ == old(self).arena@.push(
                min_max_view(old(self).pos(type_ent), name@, type_ent),
            ),
    {
        let mut formals = FormalRegion::new_params();
        formals.add(constant_in_param("L", type_ent));
        formals.add(constant_in_param("R", type_ent));
        assert(formals@ =~= seq![constant_in("L"@, type_ent), constant_in("R"@, type_ent)]);
        let d = self.symbol(name);
        self.new_function(type_ent, d, formals, type_ent)
    }

    fn unary(&mut self, op: Operator, typ: EntityId, return_type: EntityId) -> (r: EntityId)
        requires
            old(self).wf(),
            typ < old(self).arena@.len(),
            old(self).room(1),
        ensures
            final(self).wf(),
            final(self).keeps(old(self)),
            r == old(self).arena@.len(),
            final(self).arena@ == old(self).arena@.push(
                unary_view(old(self).pos(typ), op, typ, return_type),
            ),
    {
        let mut formals = FormalRegion::new_params();
        formals.add(constant_in_param("V", typ));
        self.new_function(typ, Designator::OperatorSymbol(op), formals, return_type)
    }

    fn symmetric_unary(&mut self, op: Operator, typ: EntityId) -> (r: EntityId)
        requires
            old(self).wf(),
            typ < old(self).arena@.len(),
            old(self).room(1),
        ensures
            final(self).wf(),
            final(self).keeps(old(self)),
            r == old(self).arena@.len(),
            final(self).arena@ == old(self).arena@.push(unary_view(old(self).pos(typ), op, typ, typ)),
    {
        self.unary(op, typ, typ)
    }

    fn binary(
        &mut self,
        op: Operator,
        implicit_of: EntityId,
        left: EntityId,
        right: EntityId,
        return_type: EntityId,
    ) -> (r: EntityId)
        requires
            old(self).wf(),
            implicit_of < old(self).arena@.len(),
            old(self).room(1),
        ensures
            final(self).wf(),
            final(self).keeps(old(self)),
            r == old(self).arena@.len(),
            final(self).arena@ == old(self).arena@.push(
                binary_view(old(self).pos(implicit_of), op, implicit_of, left, right, return_type),
            ),
    {
        let mut formals = FormalRegion::new_params();
        formals.add(constant_in_param("L", left));
        formals.add(constant_in_param("R", right));
        assert(formals@ =~= seq![constant_in("L"@, left), constant_in("R"@, right)]);
        self.new_function(implicit_of, Designator::OperatorSymbol(op), formals, return_type)
    }

    fn symmetric_binary(&mut self, op: Operator, typ: EntityId) -> (r: EntityId)
        requires
            old(self).wf(),
            typ < old(self).arena@.len(),
            old(self).room(1),
        ensures
            final(self).wf(),
            final(self).keeps(old(self)),
            r == old(self).arena@.len(),
            final(self).arena@ == old(self).arena@.push(
                symmetric_binary_view(old(self).pos(typ), op, typ),
            ),
    {
        self.binary(op, typ, typ, typ, typ)
    }

    fn comparison(&mut self, op: Operator, typ: EntityId) -> (r: EntityId)
        requires
            old(self).wf(),
            typ < old(self).arena@.len(),
            old(self).room(1),
        ensures
            final(self).wf(),
            final(self).keeps(old(self)),
            r == old(self).arena@.len(),
            final(self).arena@ == old(self).arena@.push(
                comparison_view(old(self).pos(typ), op, typ, old(self).boolean_type),
            ),
    {
        let b = self.boolean();
        self.binary(op, typ, typ, typ, b)
    }

    pub fn minimum(&mut self, type_ent: EntityId) -> (r: EntityId)
        requires
            old(self).wf(),
            type_ent < old(self).arena@.len(),
            old(self).room(1),
        ensures
            final(self).wf(),
            final(self).keeps(old(self)),
            r == old(self).arena@.len(),
            final(self).arena@ == old(self).arena@.push(
                min_max_view(old(self).pos(type_ent), "MINIMUM"@, type_ent),
            ),
    {
        self.create_min_or_maximum("MINIMUM", type_ent)
    }

    pub fn maximum(&mut self, type_ent: EntityId) -> (r: EntityId)
        requires
            old(self).wf(),
            type_ent < old(self).arena@.len(),
            old(self).room(1),
        ensures
            final(self).wf(),
            final(self).keeps(old(self)),
            r == old(self).arena@.len(),
            final(self).arena@ == old(self).arena@.push(
                min_max_view(old(self).pos(type_ent), "MAXIMUM"@, type_ent),
            ),
    {
        self.create_min_or_maximum("MAXIMUM", type_ent)
    }

    /// Creates `procedure DEALLOCATE (P: inout AT)`.
    pub fn deallocate(&mut self, type_ent: EntityId) -> (r: EntityId)
        requires
            old(self).wf(),
            type_ent < old(self).arena@.len(),
            old(self).room(1),
        ensures
            final(self).wf(),
            final(self).keeps(old(self)),
            r == old(self).arena@.len(),
            final(self).arena@ == old(self).arena@.push(
                deallocate_view(old(self).pos(type_ent), type_ent),
            ),
    {
        let mut formals = FormalRegion::new_params();
        formals.add(variable_param_of("P", Mode::InOut, type_ent));
        let d = self.symbol("DEALLOCATE");
        self.new_procedure(type_ent, d, formals)
    }

    /// The six comparators `=`, `/=`, `<`, `<=`, `>`, `>=` of a type, each
    /// returning `BOOLEAN`.
    pub fn comparators(&mut self, typ: EntityId) -> (r: Vec<EntityId>)
        requires
            old(self).wf(),
            typ < old(self).arena@.len(),
            old(self).room(6),
        ensures
            final(self).wf(),
            final(self).keeps(old(self)),
            final(self).arena@ == old(self).arena@ + comparator_views(old(self).pos(typ), typ, old(self).boolean_type),
            r@ == fresh_ids(old(self).arena@.len() as nat, comparator_views(old(self).pos(typ), typ, old(self).boolean_type).len()),
    {
        let ghost a0 = self.arena@;
        let mut r: Vec<EntityId> = Vec::new();
        let e = self.comparison(Operator::EQ, typ);
        r.push(e);
        let e = self.comparison(Operator::NE, typ);
        r.push(e);
        let e = self.comparison(Operator::LT, typ);
        r.push(e);
        let e = self.comparison(Operator::LTE, typ);
        r.push(e);
        let e = self.comparison(Operator::GT, typ);
        r.push(e);
        let e = self.comparison(Operator::GTE, typ);
        r.push(e);

        assert(self.arena@ =~= a0 + comparator_views(old(self).pos(typ), typ, old(self).boolean_type));
        assert(r@ =~= fresh_ids(a0.len() as nat, comparator_views(old(self).pos(typ), typ, old(self).boolean_type).len()));
        r
    }

    /// The implicits of an integer or real type.
    #[verifier::rlimit(30)]
    pub fn numeric_implicits(&mut self, typ: EntityId) -> (r: Vec<EntityId>)
        requires
            old(self).wf(),
            typ < old(self).arena@.len(),
            old(self).room(14),
        ensures
            final(self).wf(),
            final(self).keeps(old(self)),
            final(self).arena@ == old(self).arena@ + numeric_views(old(self).pos(typ), typ, old(self).boolean_type, old(self).string_type),
            r@ == fresh_ids(old(self).arena@.len() as nat, numeric_views(old(self).pos(typ), typ, old(self).boolean_type, old(self).string_type).len()),
    {
        let ghost a0 = self.arena@;
        let mut r: Vec<EntityId> = Vec::new();
        let e = self.minimum(typ);
        r.push(e);
        let e = self.maximum(typ);
        r.push(e);
        let e = self.create_to_string(typ);
        r.push(e);
        let e = self.symmetric_unary(Operator::Minus, typ);
        r.push(e);
        let e = self.symmetric_unary(Operator::Plus, typ);
        r.push(e);
        let e = self.symmetric_unary(Operator::Abs, typ);
        r.push(e);
        let e = self.symmetric_binary(Operator::Plus, typ);
        r.push(e);
        let e = self.symmetric_binary(Operator::Minus, typ);
        r.push(e);
        let mut more = self.comparators(typ);
        r.append(&mut more);

        assert(self.arena@ =~= a0 + numeric_views(old(self).pos(typ), typ, old(self).boolean_type, old(self).string_type));
        assert(r@ =~= fresh_ids(a0.len() as nat, numeric_views(old(self).pos(typ), typ, old(self).boolean_type, old(self).string_type).len()));
        r
    }

    /// The implicits of a physical type.
    #[verifier::rlimit(30)]
    pub fn physical_implicits(&mut self, typ: EntityId) -> (r: Vec<EntityId>)
        requires
            old(self).wf(),
            typ < old(self).arena@.len(),
            old(self).room(13),
        ensures
            final(self).wf(),
            final(self).keeps(old(self)),
            final(self).arena@ == old(self).arena@ + physical_views(old(self).pos(typ), typ, old(self).boolean_type),
            r@ == fresh_ids(old(self).arena@.len() as nat, physical_views(old(self).pos(typ), typ, old(self).boolean_type).len()),
    {
        let ghost a0 = self.arena@;
        let mut r: Vec<EntityId> = Vec::new();
        let e = self.minimum(typ);
        r.push(e);
        let e = self.maximum(typ);
        r.push(e);
        let e = self.symmetric_unary(Operator::Minus, typ);
        r.push(e);
        let e = self.symmetric_unary(Operator::Plus, typ);
        r.push(e);
        let e = self.symmetric_unary(Operator::Abs, typ);
        r.push(e);
        let e = self.symmetric_binary(Operator::Plus, typ);
        r.push(e);
        let e = self.symmetric_binary(Operator::Minus, typ);
        r.push(e);
        let mut more = self.comparators(typ);
        r.append(&mut more);

        assert(self.arena@ =~= a0 + physical_views(old(self).pos(typ), typ, old(self).boolean_type));
        assert(r@ =~= fresh_ids(a0.len() as nat, physical_views(old(self).pos(typ), typ, old(self).boolean_type).len()));
        r
    }

    /// The implicits of an enumeration type.
    pub fn enum_implicits(&mut self, typ: EntityId) -> (r: Vec<EntityId>)
        requires
            old(self).wf(),
            typ < old(self).arena@.len(),
            old(self).room(9),
        ensures
            final(self).wf(),
            final(self).keeps(old(self)),
            final(self).arena@ == old(self).arena@ + enum_views(old(self).pos(typ), typ, old(self).boolean_type, old(self).string_type),
            r@ == fresh_ids(old(self).arena@.len() as nat, enum_views(old(self).pos(typ), typ, old(self).boolean_type, old(self).string_type).len()),
    {
        let ghost a0 = self.arena@;
        let mut r: Vec<EntityId> = Vec::new();
        let e = self.create_to_string(typ);
        r.push(e);
        let e = self.minimum(typ);
        r.push(e);
        let e = self.maximum(typ);
        r.push(e);
        let mut more = self.comparators(typ);
        r.append(&mut more);

        assert(self.arena@ =~= a0 + enum_views(old(self).pos(typ), typ, old(self).boolean_type, old(self).string_type));
        assert(r@ =~= fresh_ids(a0.len() as nat, enum_views(old(self).pos(typ), typ, old(self).boolean_type, old(self).string_type).len()));
        r
    }

    /// The implicits of a record type: `=` and `/=`.
    pub fn record_implicits(&mut self, typ: EntityId) -> (r: Vec<EntityId>)
        requires
            old(self).wf(),
            typ < old(self).arena@.len(),
            old(self).room(2),
        ensures
            final(self).wf(),
            final(self).keeps(old(self)),
            final(self).arena@ == old(self).arena@ + record_views(old(self).pos(typ), typ, old(self).boolean_type),
            r@ == fresh_ids(old(self).arena@.len() as nat, record_views(old(self).pos(typ), typ, old(self).boolean_type).len()),
    {
        let ghost a0 = self.arena@;
        let mut r: Vec<EntityId> = Vec::new();
        let e = self.comparison(Operator::EQ, typ);
        r.push(e);
        let e = self.comparison(Operator::NE, typ);
        r.push(e);

        assert(self.arena@ =~= a0 + record_views(old(self).pos(typ), typ, old(self).boolean_type));
        assert(r@ =~= fresh_ids(a0.len() as nat, record_views(old(self).pos(typ), typ, old(self).boolean_type).len()));
        r
    }

    /// The four concatenations of a one-dimensional array type and its element type.
    fn concatenations(&mut self, array_type: EntityId, elem_type: EntityId) -> (r: Vec<EntityId>)
        requires
            old(self).wf(),
            array_type < old(self).arena@.len(),
            old(self).room(4),
        ensures
            final(self).wf(),
            final(self).keeps(old(self)),
            final(self).arena@ == old(self).arena@ + concatenation_views(old(self).pos(array_type), array_type, elem_type),
            r@ == fresh_ids(old(self).arena@.len() as nat, concatenation_views(old(self).pos(array_type), array_type, elem_type).len()),
    {
        let ghost a0 = self.arena@;
        let mut r: Vec<EntityId> = Vec::new();
        let e = self.binary(Operator::Concat, array_type, array_type, elem_type, array_type);
        r.push(e);
        let e = self.binary(Operator::Concat, array_type, elem_type, array_type, array_type);
        r.push(e);
        let e = self.symmetric_binary(Operator::Concat, array_type);
        r.push(e);
        let e = self.binary(Operator::Concat, array_type, elem_type, elem_type, array_type);
        r.push(e);

        assert(self.arena@ =~= a0 + concatenation_views(old(self).pos(array_type), array_type, elem_type));
        assert(r@ =~= fresh_ids(a0.len() as nat, concatenation_views(old(self).pos(array_type), array_type, elem_type).len()));
        r
    }

    /// The implicits of an access type: `DEALLOCATE`, `=` and `/=`.
    pub fn access_implicits(&mut self, typ: EntityId) -> (r: Vec<EntityId>)
        requires
            old(self).wf(),
            typ < old(self).arena@.len(),
            old(self).room(3),
        ensures
            final(self).wf(),
            final(self).keeps(old(self)),
            final(self).arena@ == old(self).arena@ + access_views(old(self).pos(typ), typ, old(self).boolean_type),
            r@ == fresh_ids(old(self).arena@.len() as nat, access_views(old(self).pos(typ), typ, old(self).boolean_type).len()),
    {
        let ghost a0 = self.arena@;
        let mut r: Vec<EntityId> = Vec::new();
        let e = self.deallocate(typ);
        r.push(e);
        let e = self.comparison(Operator::EQ, typ);
        r.push(e);
        let e = self.comparison(Operator::NE, typ);
        r.push(e);

        assert(self.arena@ =~= a0 + access_views(old(self).pos(typ), typ, old(self).boolean_type));
        assert(r@ =~= fresh_ids(a0.len() as nat, access_views(old(self).pos(typ), typ, old(self).boolean_type).len()));
        r
    }

    /// The implicits of an array type: `TO_STRING`, `=`, `/=`, and for one
    /// dimension the four concatenations.
    pub fn array_implicits(&mut self, typ: EntityId) -> (r: Vec<EntityId>)
        requires
            old(self).wf(),
            typ < old(self).arena@.len(),
            old(self).arena@[typ as int].kind is Type,
            old(self).arena@[typ as int].kind->Type_0 is Array,
            old(self).room(7),
        ensures
            final(self).wf(),
            final(self).keeps(old(self)),
            ({
                let ty = old(self).arena@[typ as int].kind->Type_0;
                let v = array_views(
                    old(self).pos(typ),
                    typ,
                    ty->Array_indexes,
                    ty->Array_elem_type,
                    old(self).boolean_type,
                    old(self).string_type,
                );
                &&& final(self).arena@ == old(self).arena@ + v
                &&& r@ == fresh_ids(old(self).arena@.len() as nat, v.len())
            }),
    {
        let ghost a0 = self.arena@;
        let (indexes, elem_type) = match &self.arena.get(typ).kind {
            AnyEntKind::Type(Type::Array { indexes, elem_type }) => (*indexes, *elem_type),
            _ => (0, 0),
        };
        let mut r: Vec<EntityId> = Vec::new();
        let e = self.create_to_string(typ);
        r.push(e);
        let e = self.comparison(Operator::EQ, typ);
        r.push(e);
        let e = self.comparison(Operator::NE, typ);
        r.push(e);
        if indexes == 1 {
            let mut more = self.concatenations(typ, elem_type);
            r.append(&mut more);
        }
        let ghost v = array_views(old(self).pos(typ), typ, indexes, elem_type, old(self).boolean_type, old(self).string_type);
        assert(self.arena@ =~= a0 + v);
        assert(r@ =~= fresh_ids(a0.len() as nat, v.len()));
        r
    }

    /// The implicit declarations that the language attaches to the type `typ`;
    /// none for an entity that is not a type of a kind that has them.
    pub fn type_implicits(&mut self, typ: EntityId) -> (r: Vec<EntityId>)
        requires
            old(self).wf(),
            typ < old(self).arena@.len(),
            old(self).room(14),
        ensures
            final(self).wf(),
            final(self).keeps(old(self)),
            ({
                let v = type_implicit_views(
                    old(self).arena@[typ as int],
                    typ,
                    old(self).boolean_type,
                    old(self).string_type,
                );
                &&& final(self).arena@ == old(self).arena@ + v
                &&& r@ == fresh_ids(old(self).arena@.len() as nat, v.len())
            }),
    {
        let ghost a0 = self.arena@;
        let kind = match &self.arena.get(typ).kind {
            AnyEntKind::Type(t) => Some(*t),
            _ => None,
        };
        let r = match kind {
            Some(Type::Access(_)) => self.access_implicits(typ),
            Some(Type::Enum) => self.enum_implicits(typ),
            Some(Type::Integer) => self.numeric_implicits(typ),
            Some(Type::Real) => self.numeric_implicits(typ),
            Some(Type::Record) => self.record_implicits(typ),
            Some(Type::Physical) => self.physical_implicits(typ),
            Some(Type::Array { .. }) => self.array_implicits(typ),
            // the universal types are installed before the standard package
            Some(Type::Universal(_)) => Vec::new(),
            _ => Vec::new(),
        };
        proof {
            if !(a0[typ as int].kind is Type) || type_implicit_views(a0[typ as int], typ, self.boolean_type, self.string_type).len() == 0 {
                assert(self.arena@ =~= a0 + Seq::<EntityView>::empty());
                assert(r@ =~= fresh_ids(a0.len() as nat, 0));
            }
        }
        r
    }

    /// Creates the subprograms that a file type `file_type` of `type_mark`
    /// declares: two `FILE_OPEN`, then `FILE_CLOSE`, `READ`, `WRITE`, `FLUSH`
    /// and `ENDFILE`.
    #[verifier::rlimit(30)]
    pub fn create_implicit_file_type_subprograms(&mut self, file_type: EntityId, type_mark: EntityId) -> (r: Vec<EntityId>)
        requires
            old(self).wf(),
            file_type < old(self).arena@.len(),
            old(self).room(7),
        ensures
            final(self).wf(),
            final(self).keeps(old(self)),
            final(self).arena@ == old(self).arena@ + file_subprogram_views(
                old(self).pos(file_type),
                file_type,
                type_mark,
                old(self).string_type,
                old(self).boolean_type,
                old(self).file_open_kind_type,
                old(self).file_open_status_type,
            ),
            r@ == fresh_ids(old(self).arena@.len() as nat, 7),
    {
        let ghost a0 = self.arena@;
        let string = self.string();
        let boolean = self.boolean();
        let file_open_kind = self.file_open_kind();
        let file_open_status = self.file_open_status();
        let mut implicit: Vec<EntityId> = Vec::new();

        // procedure FILE_OPEN (file F: FT; External_Name: in STRING; Open_Kind: in FILE_OPEN_KIND := READ_MODE);
        let mut formals = FormalRegion::new_params();
        formals.add(file_param_of(file_type));
        formals.add(constant_in_param("External_Name", string));
        formals.add(open_kind_param_of(file_open_kind));
        assert(formals@ =~= seq![file_param(file_type), constant_in("External_Name"@, string), open_kind_param(file_open_kind)]);
        let d = self.symbol("FILE_OPEN");
        let e = self.new_procedure(file_type, d, formals);
        implicit.push(e);

        // procedure FILE_OPEN (Status: out FILE_OPEN_STATUS; file F: FT; External_Name: in STRING; Open_Kind: in FILE_OPEN_KIND := READ_MODE);
        let mut formals = FormalRegion::new_params();
        formals.add(variable_param_of("Status", Mode::Out, file_open_status));
        formals.add(file_param_of(file_type));
        formals.add(constant_in_param("External_Name", string));
        formals.add(open_kind_param_of(file_open_kind));
        assert(formals@ =~= seq![
            variable_param("Status"@, Mode::Out, file_open_status),
            file_param(file_type),
            constant_in("External_Name"@, string),
            open_kind_param(file_open_kind),
        ]);
        let d = self.symbol("FILE_OPEN");
        let e = self.new_procedure(file_type, d, formals);
        implicit.push(e);

        // procedure FILE_CLOSE (file F: FT);
        let mut formals = FormalRegion::new_params();
        formals.add(file_param_of(file_type));
        assert(formals@ =~= seq![file_param(file_type)]);
        let d = self.symbol("FILE_CLOSE");
        let e = self.new_procedure(file_type, d, formals);
        implicit.push(e);

        // procedure READ (file F: FT; VALUE: out TM);
        let mut formals = FormalRegion::new_params();
        formals.add(file_param_of(file_type));
        formals.add(variable_param_of("VALUE", Mode::Out, type_mark));
        assert(formals@ =~= seq![file_param(file_type), variable_param("VALUE"@, Mode::Out, type_mark)]);
        let d = self.symbol("READ");
        let e = self.new_procedure(file_type, d, formals);
        implicit.push(e);

        // procedure WRITE (file F: FT; VALUE: in TM);
        let mut formals = FormalRegion::new_params();
        formals.add(file_param_of(file_type));
        formals.add(constant_in_param("VALUE", type_mark));
        assert(formals@ =~= seq![file_param(file_type), constant_in("VALUE"@, type_mark)]);
        let d = self.symbol("WRITE");
        let e = self.new_procedure(file_type, d, formals);
        implicit.push(e);

        // procedure FLUSH (file F: FT);
        let mut formals = FormalRegion::new_params();
        formals.add(file_param_of(file_type));
        assert(formals@ =~= seq![file_param(file_type)]);
        let d = self.symbol("FLUSH");
        let e = self.new_procedure(file_type, d, formals);
        implicit.push(e);

        // function ENDFILE (file F: FT) return BOOLEAN;
        let mut formals = FormalRegion::new_params();
        formals.add(file_param_of(file_type));
        assert(formals@ =~= seq![file_param(file_type)]);
        let d = self.symbol("ENDFILE");
        let e = self.new_function(file_type, d, formals, boolean);
        implicit.push(e);

        assert(self.arena@ =~= a0 + file_subprogram_views(
            old(self).pos(file_type),
            file_type,
            type_mark,
            string,
            boolean,
            file_open_kind,
            file_open_status,
        ));
        assert(implicit@ =~= fresh_ids(a0.len() as nat, 7));
        implicit
    }

    /// Creates `function TO_STRING (VALUE: T; name: U) return STRING`.
    fn to_string_with(&mut self, typ: EntityId, name: &str, second: EntityId) -> (r: EntityId)
        requires
            old(self).wf(),
            typ < old(self).arena@.len(),
            old(self).room(1),
        ensures
            final(self).wf(),
            final(self).keeps(old(self)),
            r == old(self).arena@.len(),
            final(self).arena@ == old(self).arena@.push(
                to_string_with_view(old(self).pos(typ), typ, name@, second, old(self).string_type),
            ),
    {
        let mut formals = FormalRegion::new_params();
        formals.add(constant_in_param("VALUE", typ));
        formals.add(constant_in_param(name, second));
        assert(formals@ =~= seq![constant_in("VALUE"@, typ), constant_in(name@, second)]);
        let d = self.symbol("TO_STRING");
        let s = self.string();
        self.new_function(typ, d, formals, s)
    }

    /// The logical operators of a scalar type: six binary ones and `not`.
    #[verifier::rlimit(30)]
    fn logical_implicits(&mut self, typ: EntityId) -> (r: Vec<EntityId>)
        requires
            old(self).wf(),
            typ < old(self).arena@.len(),
            old(self).room(7),
        ensures
            final(self).wf(),
            final(self).keeps(old(self)),
            final(self).arena@ == old(self).arena@ + logical_views(old(self).pos(typ), typ),
            r@ == fresh_ids(old(self).arena@.len() as nat, logical_views(old(self).pos(typ), typ).len()),
    {
        let ghost a0 = self.arena@;
        let mut r: Vec<EntityId> = Vec::new();
        let e = self.symmetric_binary(Operator::And, typ);
        r.push(e);
        let e = self.symmetric_binary(Operator::Or, typ);
        r.push(e);
        let e = self.symmetric_binary(Operator::Nand, typ);
        r.push(e);
        let e = self.symmetric_binary(Operator::Nor, typ);
        r.push(e);
        let e = self.symmetric_binary(Operator::Xor, typ);
        r.push(e);
        let e = self.symmetric_binary(Operator::Xnor, typ);
        r.push(e);
        let e = self.symmetric_unary(Operator::Not, typ);
        r.push(e);

        assert(self.arena@ =~= a0 + logical_views(old(self).pos(typ), typ));
        assert(r@ =~= fresh_ids(a0.len() as nat, logical_views(old(self).pos(typ), typ).len()));
        r
    }

    /// The four forms of one logical operator on an array of a scalar type.
    fn vector_op_implicits(&mut self, op: Operator, atyp: EntityId, styp: EntityId) -> (r: Vec<EntityId>)
        requires
            old(self).wf(),
            atyp < old(self).arena@.len(),
            old(self).room(4),
        ensures
            final(self).wf(),
            final(self).keeps(old(self)),
            final(self).arena@ == old(self).arena@ + vector_op_views(old(self).pos(atyp), op, atyp, styp),
            r@ == fresh_ids(old(self).arena@.len() as nat, vector_op_views(old(self).pos(atyp), op, atyp, styp).len()),
    {
        let ghost a0 = self.arena@;
        let mut r: Vec<EntityId> = Vec::new();
        let e = self.symmetric_binary(op, atyp);
        r.push(e);
        let e = self.unary(op, atyp, styp);
        r.push(e);
        let e = self.binary(op, atyp, atyp, styp, atyp);
        r.push(e);
        let e = self.binary(op, atyp, styp, atyp, atyp);
        r.push(e);

        assert(self.arena@ =~= a0 + vector_op_views(old(self).pos(atyp), op, atyp, styp));
        assert(r@ =~= fresh_ids(a0.len() as nat, vector_op_views(old(self).pos(atyp), op, atyp, styp).len()));
        r
    }

    /// The logical operators of an array `atyp` of the scalar `styp`.
    #[verifier::rlimit(30)]
    fn vector_implicits(&mut self, atyp: EntityId, styp: EntityId) -> (r: Vec<EntityId>)
        requires
            old(self).wf(),
            atyp < old(self).arena@.len(),
            old(self).room(24),
        ensures
            final(self).wf(),
            final(self).keeps(old(self)),
            final(self).arena@ == old(self).arena@ + vector_views(old(self).pos(atyp), atyp, styp),
            r@ == fresh_ids(old(self).arena@.len() as nat, vector_views(old(self).pos(atyp), atyp, styp).len()),
    {
        let ghost a0 = self.arena@;
        let mut r: Vec<EntityId> = Vec::new();
        let mut more = self.vector_op_implicits(Operator::And, atyp, styp);
        r.append(&mut more);
        let mut more = self.vector_op_implicits(Operator::Or, atyp, styp);
        r.append(&mut more);
        let mut more = self.vector_op_implicits(Operator::Nand, atyp, styp);
        r.append(&mut more);
        let mut more = self.vector_op_implicits(Operator::Nor, atyp, styp);
        r.append(&mut more);
        let mut more = self.vector_op_implicits(Operator::Xor, atyp, styp);
        r.append(&mut more);
        let mut more = self.vector_op_implicits(Operator::Xnor, atyp, styp);
        r.append(&mut more);

        assert(self.arena@ =~= a0 + vector_views(old(self).pos(atyp), atyp, styp));
        assert(r@ =~= fresh_ids(a0.len() as nat, vector_views(old(self).pos(atyp), atyp, styp).len()));
        r
    }

    /// Pushes each of `ids`, in order, onto the implicits of its parent type,
    /// where that type's kind has a list of implicits.
    fn attach_implicits(&mut self, ids: &Vec<EntityId>)
        requires
            old(self).wf(),
        ensures
            final(self).wf(),
            final(self).keeps(old(self)),
            final(self).arena@ == with_attached(old(self).arena@, ids@),
    {
        let ghost b = self.arena@;
        broadcast use Seq::lemma_filter_push;
        proof {
            reveal(Seq::filter);
            assert forall|p: int| 0 <= p < b.len() implies attached(b, ids@.take(0), p) =~= Seq::<EntityId>::empty() by {
                assert(ids@.take(0) =~= Seq::<EntityId>::empty());
            }
            assert(b =~= with_attached(b, ids@.take(0)));
        }
        let mut k: usize = 0;
        while k < ids.len()
            invariant
                k <= ids@.len(),
                self.keeps(old(self)),
                b == old(self).arena@,
                self.arena@ == with_attached(b, ids@.take(k as int)),
            decreases ids@.len() - k,
        {
            let id = ids[k];
            let ghost before = ids@.take(k as int);
            assert(ids@.take(k + 1) =~= before.push(id));
            if id < self.arena.len() {
                if let Some(p) = self.arena.get(id).parent {
                    if p < self.arena.len() && self.arena.get(p).has_implicits_slot() {
                        self.arena.push_implicit(p, id);
                    }
                }
            }
            proof {
                let after = ids@.take(k + 1);
                assert forall|q: int| 0 <= q < b.len() implies attached(b, after, q) == (if hosts_implicits(b[q])
                    && belongs_to(b, q)(id) {
                    attached(b, before, q).push(id)
                } else {
                    attached(b, before, q)
                }) by {
                    before.lemma_filter_push(id, belongs_to(b, q));
                }
                assert(self.arena@ =~= with_attached(b, after));
            }
            k += 1;
        }
        assert(ids@.take(k as int) =~= ids@);
        proof {
            self.lemma_wf_extends(old(self));
        }
    }

    /// Creates every implicit declaration of the standard package: those of
    /// each type it declares, then `TO_STRING` of `TIME`, the logical
    /// operators of `BOOLEAN` and `BIT` and of their vectors, and the
    /// overloads of `TO_STRING` for `REAL` and `TIME`. Each is pushed onto
    /// the implicits of its type.
    #[verifier::rlimit(60)]
    pub fn end_of_package_implicits(&mut self) -> (r: Vec<EntityId>)
        requires
            old(self).wf(),
            region_type(old(self).arena@, old(self).region, "BOOLEAN"@) is Some,
            region_type(old(self).arena@, old(self).region, "BIT"@) is Some,
            region_type(old(self).arena@, old(self).region, "BOOLEAN_VECTOR"@) is Some,
            region_type(old(self).arena@, old(self).region, "BIT_VECTOR"@) is Some,
            old(self).room(14 * old(self).region.entries@.len() + 100),
        ensures
            final(self).wf(),
            final(self).keeps(old(self)),
            ({
                let v = end_of_package_views(*old(self));
                let ids = fresh_ids(old(self).arena@.len() as nat, v.len());
                &&& r@ == ids
                &&& final(self).arena@ == with_attached(old(self).arena@ + v, ids)
            }),
    {
        let ghost a0 = self.arena@;
        let ghost entries = self.region.entries@;
        let a0_len = self.arena.len();
        let boolean = self.lookup_type("BOOLEAN");
        let bit = self.lookup_type("BIT");
        let boolean_vector = self.lookup_type("BOOLEAN_VECTOR");
        let bit_vector = self.lookup_type("BIT_VECTOR");
        let mut res: Vec<EntityId> = Vec::new();
        let n = self.region.entries.len();
        let mut i: usize = 0;
        while i < n
            invariant
                i <= n == entries.len(),
                self.wf(),
                self.keeps(old(self)),
                a0 == old(self).arena@,
                a0_len == a0.len(),
                entries == old(self).region.entries@,
                boolean < a0_len && bit < a0_len && boolean_vector < a0_len && bit_vector < a0_len,
                a0_len + 14 * n + 100 < usize::MAX,
                region_views(a0, entries, i as nat, self.boolean_type, self.string_type).len() <= 14 * i,
                self.arena@ == a0 + region_views(a0, entries, i as nat, self.boolean_type, self.string_type),
                res@ == fresh_ids(a0.len() as nat, region_views(a0, entries, i as nat, self.boolean_type, self.string_type).len()),
            decreases n - i,
        {
            let ghost rv = region_views(a0, entries, i as nat, self.boolean_type, self.string_type);
            let single = match &self.region.entries[i] {
                NamedEntities::Single(id) => Some(*id),
                _ => None,
            };
            let ghost next = region_views(a0, entries, (i + 1) as nat, self.boolean_type, self.string_type);
            match single {
                Some(id) => {
                    if id < a0_len {
                        assert(self.arena@[id as int] == a0[id as int]);
                        let mut v = self.type_implicits(id);
                        assert(next == rv + type_implicit_views(a0[id as int], id, self.boolean_type, self.string_type));
                        res.append(&mut v);
                    } else {
                        assert(next =~= rv);
                    }
                },
                None => {
                    assert(next =~= rv);
                },
            }
            assert(res@ =~= fresh_ids(a0.len() as nat, next.len()));
            assert(self.arena@ =~= a0 + next);
            i += 1;
        }
        let ghost rv = region_views(a0, entries, n as nat, self.boolean_type, self.string_type);
        let ghost la = self.arena@.len();
        assert(la == a0.len() + rv.len());

        let time = self.time();
        let e = self.create_to_string(time);
        res.push(e);

        let mut more = self.logical_implicits(boolean);
        res.append(&mut more);
        let mut more = self.logical_implicits(bit);
        res.append(&mut more);
        let mut more = self.vector_implicits(boolean_vector, boolean);
        res.append(&mut more);
        let mut more = self.vector_implicits(bit_vector, bit);
        res.append(&mut more);

        // function TO_STRING (VALUE: REAL; DIGITS: NATURAL) return STRING;
        let real_ent = self.real_type();
        let natural = self.natural();
        let string = self.string();
        let e = self.to_string_with(real_ent, "DIGITS", natural);
        res.push(e);
        // function TO_STRING (VALUE: REAL; FORMAT: STRING) return STRING;
        let e = self.to_string_with(real_ent, "FORMAT", string);
        res.push(e);
        // function TO_STRING (VALUE: TIME; UNIT: TIME) return STRING;
        let e = self.to_string_with(time, "UNIT", time);
        res.push(e);

        let ghost v = end_of_package_views(*old(self));
        assert(self.arena@ =~= a0 + v);
        assert(res@ =~= fresh_ids(a0.len() as nat, v.len()));
        self.attach_implicits(&res);
        res
    }
}

pub open spec fn designators(v: Seq<EntityView>) -> Seq<DesignatorView> {
    v.map_values(|e: EntityView| e.designator)
}

pub open spec fn op(o: Operator) -> DesignatorView {
    DesignatorView::OperatorSymbol(o)
}

pub open spec fn ident(s: Seq<char>) -> DesignatorView {
    DesignatorView::Identifier(s)
}

pub open spec fn comparator_designators() -> Seq<DesignatorView> {
    seq![op(Operator::EQ), op(Operator::NE), op(Operator::LT), op(Operator::LTE), op(Operator::GT), op(Operator::GTE)]
}

/// All of `v` are implicits of `t`.
pub open spec fn all_implicits_of(v: Seq<EntityView>, t: EntityId) -> bool {
    forall|i: int| 0 <= i < v.len() ==> #[trigger] v[i].parent == Some(t)
}

/// An integer or real type has `MINIMUM`, `MAXIMUM`, `TO_STRING`, unary `-`,
/// `+` and `abs`, binary `+` and `-`, then the six comparators, each a
/// function of that type.
pub proof fn lemma_numeric_type_implicits(e: EntityView, t: EntityId, boolean: EntityId, string: EntityId)
    requires
        e.kind == KindView::Type(Type::Integer) || e.kind == KindView::Type(Type::Real),
    ensures
        type_implicit_views(e, t, boolean, string) == numeric_views(e.decl_pos, t, boolean, string),
        designators(type_implicit_views(e, t, boolean, string)) == seq![
            ident("MINIMUM"@),
            ident("MAXIMUM"@),
            ident("TO_STRING"@),
            op(Operator::Minus),
            op(Operator::Plus),
            op(Operator::Abs),
            op(Operator::Plus),
            op(Operator::Minus),
        ] + comparator_designators(),
        all_implicits_of(type_implicit_views(e, t, boolean, string), t),
{
    let v = type_implicit_views(e, t, boolean, string);
    assert(designators(v) =~= seq![
        ident("MINIMUM"@),
        ident("MAXIMUM"@),
        ident("TO_STRING"@),
        op(Operator::Minus),
        op(Operator::Plus),
        op(Operator::Abs),
        op(Operator::Plus),
        op(Operator::Minus),
    ] + comparator_designators());
}

/// An enumeration type has `TO_STRING`, `MINIMUM`, `MAXIMUM`, then the six
/// comparators.
pub proof fn lemma_enum_type_implicits(e: EntityView, t: EntityId, boolean: EntityId, string: EntityId)
    requires
        e.kind == KindView::Type(Type::Enum),
    ensures
        type_implicit_views(e, t, boolean, string) == enum_views(e.decl_pos, t, boolean, string),
        designators(type_implicit_views(e, t, boolean, string)) == seq![
            ident("TO_STRING"@),
            ident("MINIMUM"@),
            ident("MAXIMUM"@),
        ] + comparator_designators(),
        all_implicits_of(type_implicit_views(e, t, boolean, string), t),
{
    let v = type_implicit_views(e, t, boolean, string);
    assert(designators(v) =~= seq![ident("TO_STRING"@), ident("MINIMUM"@), ident("MAXIMUM"@)]
        + comparator_designators());
}

/// A one-dimensional array type `A` of `E` has `TO_STRING`, `=`, `/=`, then
/// `A & E`, `E & A`, `A & A` and `E & E`, each returning `A`; an array of
/// more dimensions stops after `/=`.
pub proof fn lemma_array_type_implicits(
    e: EntityView,
    t: EntityId,
    indexes: usize,
    elem: EntityId,
    boolean: EntityId,
    string: EntityId,
)
    requires
        e.kind == KindView::Type(Type::Array { indexes, elem_type: elem }),
    ensures
        indexes == 1 ==> type_implicit_views(e, t, boolean, string) == seq![
            to_string_view(e.decl_pos, t, string),
            comparison_view(e.decl_pos, Operator::EQ, t, boolean),
            comparison_view(e.decl_pos, Operator::NE, t, boolean),
            binary_view(e.decl_pos, Operator::Concat, t, t, elem, t),
            binary_view(e.decl_pos, Operator::Concat, t, elem, t, t),
            binary_view(e.decl_pos, Operator::Concat, t, t, t, t),
            binary_view(e.decl_pos, Operator::Concat, t, elem, elem, t),
        ],
        indexes != 1 ==> type_implicit_views(e, t, boolean, string) == seq![
            to_string_view(e.decl_pos, t, string),
            comparison_view(e.decl_pos, Operator::EQ, t, boolean),
            comparison_view(e.decl_pos, Operator::NE, t, boolean),
        ],
        all_implicits_of(type_implicit_views(e, t, boolean, string), t),
{
    let v = type_implicit_views(e, t, boolean, string);
    if indexes == 1 {
        assert(v =~= seq![
            to_string_view(e.decl_pos, t, string),
            comparison_view(e.decl_pos, Operator::EQ, t, boolean),
            comparison_view(e.decl_pos, Operator::NE, t, boolean),
            binary_view(e.decl_pos, Operator::Concat, t, t, elem, t),
            binary_view(e.decl_pos, Operator::Concat, t, elem, t, t),
            binary_view(e.decl_pos, Operator::Concat, t, t, t, t),
            binary_view(e.decl_pos, Operator::Concat, t, elem, elem, t),
        ]);
    } else {
        assert(v =~= seq![
            to_string_view(e.decl_pos, t, string),
            comparison_view(e.decl_pos, Operator::EQ, t, boolean),
            comparison_view(e.decl_pos, Operator::NE, t, boolean),
        ]);
    }
}

/// An access type has `DEALLOCATE`, `=` and `/=`, nothing else.
pub proof fn lemma_access_type_implicits(e: EntityView, t: EntityId, target: EntityId, boolean: EntityId, string: EntityId)
    requires
        e.kind == KindView::Type(Type::Access(target)),
    ensures
        type_implicit_views(e, t, boolean, string) == seq![
            deallocate_view(e.decl_pos, t),
            comparison_view(e.decl_pos, Operator::EQ, t, boolean),
            comparison_view(e.decl_pos, Operator::NE, t, boolean),
        ],
        designators(type_implicit_views(e, t, boolean, string)) == seq![
            ident("DEALLOCATE"@),
            op(Operator::EQ),
            op(Operator::NE),
        ],
        all_implicits_of(type_implicit_views(e, t, boolean, string), t),
{
    let v = type_implicit_views(e, t, boolean, string);
    assert(designators(v) =~= seq![ident("DEALLOCATE"@), op(Operator::EQ), op(Operator::NE)]);
}

/// The universal types have no implicits.
pub proof fn lemma_universal_type_implicits(e: EntityView, t: EntityId, u: UniversalType, boolean: EntityId, string: EntityId)
    requires
        e.kind == KindView::Type(Type::Universal(u)),
    ensures
        type_implicit_views(e, t, boolean, string).len() == 0,
{
}

/// Every implicit that a type calls for is an implicit of that type.
pub proof fn lemma_type_implicits_parent(e: EntityView, t: EntityId, boolean: EntityId, string: EntityId)
    ensures
        all_implicits_of(type_implicit_views(e, t, boolean, string), t),
        type_implicit_views(e, t, boolean, string).len() <= 14,
{
    let v = type_implicit_views(e, t, boolean, string);
    assert(all_implicits_of(comparator_views(e.decl_pos, t, boolean), t));
    if let KindView::Type(Type::Array { indexes, elem_type }) = e.kind {
        assert(all_implicits_of(concatenation_views(e.decl_pos, t, elem_type), t));
    }
}

/// A file type declares `FILE_OPEN` twice, first and second, and no other
/// of its subprograms is so named; the second form starts with
/// `Status: out FILE_OPEN_STATUS`. All seven belong to the file type.
pub proof fn lemma_file_open_twice(
    pos: Option<Range>,
    ft: EntityId,
    tm: EntityId,
    string: EntityId,
    boolean: EntityId,
    file_open_kind: EntityId,
    file_open_status: EntityId,
)
    ensures
        ({
            let v = file_subprogram_views(pos, ft, tm, string, boolean, file_open_kind, file_open_status);
            &&& v.len() == 7
            &&& forall|i: int| 0 <= i < 7 ==> (#[trigger] v[i].designator == ident("FILE_OPEN"@) <==> i < 2)
            &&& v[1].kind matches KindView::Procedure { formals } && formals[0] == variable_param(
                "Status"@,
                Mode::Out,
                file_open_status,
            )
            &&& all_implicits_of(v, ft)
        }),
{
    let v = file_subprogram_views(pos, ft, tm, string, boolean, file_open_kind, file_open_status);
    reveal_strlit("FILE_OPEN");
    reveal_strlit("FILE_CLOSE");
    reveal_strlit("READ");
    reveal_strlit("WRITE");
    reveal_strlit("FLUSH");
    reveal_strlit("ENDFILE");
    assert("FILE_CLOSE"@.len() == 10 && "FILE_OPEN"@.len() == 9 || "FILE_CLOSE"@[0] != "FILE_OPEN"@[0]);
    assert("READ"@.len() == 4 && "FILE_OPEN"@.len() == 9 || "READ"@[0] != "FILE_OPEN"@[0]);
    assert("WRITE"@.len() == 5 && "FILE_OPEN"@.len() == 9 || "WRITE"@[0] != "FILE_OPEN"@[0]);
    assert("FLUSH"@.len() == 5 && "FILE_OPEN"@.len() == 9 || "FLUSH"@[0] != "FILE_OPEN"@[0]);
    assert("ENDFILE"@.len() == 7 && "FILE_OPEN"@.len() == 9 || "ENDFILE"@[0] != "FILE_OPEN"@[0]);
    assert forall|i: int| 0 <= i < 7 implies (#[trigger] v[i].designator == ident("FILE_OPEN"@) <==> i < 2) by {
        if i == 2 {
            assert(v[i].designator == ident("FILE_CLOSE"@));
        } else if i == 3 {
            assert(v[i].designator == ident("READ"@));
        } else if i == 4 {
            assert(v[i].designator == ident("WRITE"@));
        } else if i == 5 {
            assert(v[i].designator == ident("FLUSH"@));
        } else if i == 6 {
            assert(v[i].designator == ident("ENDFILE"@));
        }
    }
}

proof fn lemma_region_views_parents(
    a: Seq<EntityView>,
    entries: Seq<NamedEntities>,
    n: nat,
    boolean: EntityId,
    string: EntityId,
)
    requires
        n <= entries.len(),
    ensures
        forall|i: int| 0 <= i < region_views(a, entries, n, boolean, string).len() ==> ((
        #[trigger] region_views(a, entries, n, boolean, string)[i].parent) matches Some(p) && p < a.len()),
    decreases n,
{
    if n > 0 {
        lemma_region_views_parents(a, entries, (n - 1) as nat, boolean, string);
        if let NamedEntities::Single(id) = entries[n - 1] {
            if id < a.len() {
                lemma_type_implicits_parent(a[id as int], id, boolean, string);
            }
        }
    }
}

/// After the closure of the standard package, every implicit it made
/// belongs to a type that existed before, and appears in that type's
/// implicits wherever the type's kind has a list of them.
pub proof fn lemma_end_of_package_parents(st: StandardRegion, k: int)
    requires
        st.wf(),
        region_type(st.arena@, st.region, "BOOLEAN"@) is Some,
        region_type(st.arena@, st.region, "BIT"@) is Some,
        region_type(st.arena@, st.region, "BOOLEAN_VECTOR"@) is Some,
        region_type(st.arena@, st.region, "BIT_VECTOR"@) is Some,
        0 <= k < end_of_package_views(st).len(),
        st.arena@.len() + end_of_package_views(st).len() < usize::MAX,
    ensures
        ({
            let a = st.arena@;
            let v = end_of_package_views(st);
            let f = with_attached(a + v, fresh_ids(a.len() as nat, v.len()));
            let id = a.len() + k;
            &&& f.len() == a.len() + v.len()
            &&& f[id].parent matches Some(p) && p < a.len() && (hosts_implicits(f[p as int])
                ==> f[p as int].implicits.contains(id as EntityId))
        }),
{
    let a = st.arena@;
    let entries = st.region.entries@;
    let v = end_of_package_views(st);
    let ids = fresh_ids(a.len() as nat, v.len());
    let b = a + v;
    let id = a.len() + k;
    let n = entries.len();
    lemma_find_type(a, entries, "BOOLEAN"@, n, n);
    lemma_find_type(a, entries, "BIT"@, n, n);
    lemma_find_type(a, entries, "BOOLEAN_VECTOR"@, n, n);
    lemma_find_type(a, entries, "BIT_VECTOR"@, n, n);
    lemma_region_views_parents(a, entries, n, st.boolean_type, st.string_type);
    let boolean = region_type(a, st.region, "BOOLEAN"@)->0;
    let bit = region_type(a, st.region, "BIT"@)->0;
    let bv = region_type(a, st.region, "BOOLEAN_VECTOR"@)->0;
    let bitv = region_type(a, st.region, "BIT_VECTOR"@)->0;
    let rest = seq![to_string_view(a[st.time_type as int].decl_pos, st.time_type, st.string_type)]
        + logical_views(a[boolean as int].decl_pos, boolean) + logical_views(a[bit as int].decl_pos, bit)
        + vector_views(a[bv as int].decl_pos, bv, boolean) + vector_views(a[bitv as int].decl_pos, bitv, bit)
        + seq![
            to_string_with_view(a[st.real_type as int].decl_pos, st.real_type, "DIGITS"@, st.natural_type, st.string_type),
            to_string_with_view(a[st.real_type as int].decl_pos, st.real_type, "FORMAT"@, st.string_type, st.string_type),
            to_string_with_view(a[st.time_type as int].decl_pos, st.time_type, "UNIT"@, st.time_type, st.string_type),
        ];
    assert(all_implicits_of(logical_views(a[boolean as int].decl_pos, boolean), boolean));
    assert(all_implicits_of(logical_views(a[bit as int].decl_pos, bit), bit));
    assert(all_implicits_of(vector_views(a[bv as int].decl_pos, bv, boolean), bv));
    assert(all_implicits_of(vector_views(a[bitv as int].decl_pos, bitv, bit), bitv));
    assert(forall|i: int| 0 <= i < rest.len() ==> ((#[trigger] rest[i].parent) matches Some(p) && p < a.len()));
    let rv = region_views(a, entries, n, st.boolean_type, st.string_type);
    assert(v =~= rv + rest);
    assert(b[id].parent matches Some(p) && p < a.len());
    let p = b[id].parent->0;
    assert(ids[k] == id);
    broadcast use vstd::seq_lib::group_filter_ensures;
    assert(belongs_to(b, p as int)(ids[k]));
    let f = with_attached(b, ids);
    assert(f[id].parent == b[id].parent);
    if hosts_implicits(f[p as int]) {
        assert(hosts_implicits(b[p as int]));
        let att = attached(b, ids, p as int);
        assert(att.contains(id as EntityId));
        let j = choose|j: int| 0 <= j < att.len() && att[j] == id as EntityId;
        assert(f[p as int].implicits[b[p as int].implicits.len() + j] == id as EntityId);
    }
}

/// The closure of the standard package depends on nothing but what the
/// region and its arena hold: on two that look alike it makes the same
/// entities, by designator and signature, and leaves the same arena.
pub proof fn lemma_end_of_package_deterministic(s1: StandardRegion, s2: StandardRegion)
    requires
        s1.arena@ == s2.arena@,
        s1.region.entries@ == s2.region.entries@,
        s1.string_type == s2.string_type,
        s1.boolean_type == s2.boolean_type,
        s1.natural_type == s2.natural_type,
        s1.real_type == s2.real_type,
        s1.time_type == s2.time_type,
    ensures
        end_of_package_views(s1) == end_of_package_views(s2),
        with_attached(
            s1.arena@ + end_of_package_views(s1),
            fresh_ids(s1.arena@.len() as nat, end_of_package_views(s1).len()),
        ) == with_attached(
            s2.arena@ + end_of_package_views(s2),
            fresh_ids(s2.arena@.len() as nat, end_of_package_views(s2).len()),
        ),
{
}

} // verus!

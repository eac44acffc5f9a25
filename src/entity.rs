use vstd::prelude::*;
use crate::position::Range;

verus! {

/// Index of an entity in its arena.
pub type EntityId = usize;

/// The overloadable operator symbols.
#[derive(PartialEq, Eq, Structural, Clone, Copy, Debug)]
pub enum Operator {
    EQ,
    NE,
    LT,
    LTE,
    GT,
    GTE,
    Plus,
    Minus,
    Abs,
    Concat,
    And,
    Or,
    Nand,
    Nor,
    Xor,
    Xnor,
    Not,
}

#[derive(PartialEq, Eq, Structural, Clone, Copy, Debug)]
pub enum ObjectClass {
    Constant,
    Signal,
    Variable,
    SharedVariable,
}

#[derive(PartialEq, Eq, Structural, Clone, Copy, Debug)]
pub enum Mode {
    In,
    Out,
    InOut,
    Buffer,
    Linkage,
}

#[derive(PartialEq, Eq, Structural, Clone, Copy, Debug)]
pub enum UniversalType {
    Integer,
    Real,
}

/// The category of a type; the entity ids name other types of the same arena.
#[derive(PartialEq, Eq, Structural, Clone, Copy, Debug)]
pub enum Type {
    Universal(UniversalType),
    Integer,
    Real,
    Enum,
    Physical,
    Record,
    Array { indexes: usize, elem_type: EntityId },
    Access(EntityId),
    File(EntityId),
    Protected,
    Incomplete,
    Alias(EntityId),
    Subtype(EntityId),
    Interface,
}

impl Type {
    /// Whether this kind of type carries a list of implicit declarations.
    pub open spec fn spec_has_implicits(&self) -> bool {
        match self {
            Type::Universal(_) | Type::Integer | Type::Real | Type::Enum | Type::Physical
            | Type::Record | Type::Array { .. } | Type::Access(_) => true,
            _ => false,
        }
    }

    #[verifier::when_used_as_spec(spec_has_implicits)]
    pub fn has_implicits(&self) -> (r: bool)
        ensures
            r == self.spec_has_implicits(),
    {
        match self {
            Type::Universal(_) | Type::Integer | Type::Real | Type::Enum | Type::Physical
            | Type::Record | Type::Array { .. } | Type::Access(_) => true,
            _ => false,
        }
    }
}

/// An object declaration: a constant, signal or variable of some subtype.
#[derive(PartialEq, Eq, Structural, Clone, Copy, Debug)]
pub struct Object {
    pub class: ObjectClass,
    pub mode: Option<Mode>,
    pub subtype: EntityId,
    pub has_default: bool,
}

/// What a formal parameter is: an object, or a file of the given type.
#[derive(PartialEq, Eq, Structural, Clone, Copy, Debug)]
pub enum FormalKind {
    Object(Object),
    InterfaceFile(EntityId),
}

#[derive(Debug, PartialEq, Eq)]
pub struct Formal {
    pub name: String,
    pub kind: FormalKind,
}

pub struct FormalView {
    pub name: Seq<char>,
    pub kind: FormalKind,
}

impl View for Formal {
    type V = FormalView;

    open spec fn view(&self) -> FormalView {
        FormalView { name: self.name@, kind: self.kind }
    }
}

/// The ordered parameter list of a subprogram.
#[derive(Debug, PartialEq, Eq)]
pub struct FormalRegion {
    params: Vec<Formal>,
}

impl View for FormalRegion {
    type V = Seq<FormalView>;

    closed spec fn view(&self) -> Seq<FormalView> {
        self.params@.map_values(|f: Formal| f@)
    }
}

impl FormalRegion {
    pub fn new_params() -> (r: FormalRegion)
        ensures
            r@ == Seq::<FormalView>::empty(),
    {
        let r = FormalRegion { params: Vec::new() };
        assert(r@ =~= Seq::<FormalView>::empty());
        r
    }

    /// Appends a parameter after those already present.
    pub fn add(&mut self, f: Formal)
        ensures
            final(self)@ == old(self)@.push(f@),
    {
        self.params.push(f);
        assert(self@ =~= old(self)@.push(f@));
    }

    pub fn len(&self) -> (r: usize)
        ensures
            r == self@.len(),
    {
        self.params.len()
    }

    pub fn get(&self, i: usize) -> (r: &Formal)
        requires
            i < self@.len(),
        ensures
            r@ == self@[i as int],
    {
        &self.params[i]
    }
}

/// The name of an entity: an identifier or an operator symbol.
#[derive(Debug, PartialEq, Eq)]
pub enum Designator {
    Identifier(String),
    OperatorSymbol(Operator),
}

pub enum DesignatorView {
    Identifier(Seq<char>),
    OperatorSymbol(Operator),
}

impl View for Designator {
    type V = DesignatorView;

    open spec fn view(&self) -> DesignatorView {
        match self {
            Designator::Identifier(s) => DesignatorView::Identifier(s@),
            Designator::OperatorSymbol(op) => DesignatorView::OperatorSymbol(*op),
        }
    }
}

#[derive(Debug, PartialEq, Eq)]
pub enum AnyEntKind {
    Type(Type),
    Object(Object),
    InterfaceFile(EntityId),
    Function { formals: FormalRegion, return_type: EntityId },
    Procedure { formals: FormalRegion },
    Alias,
    Component,
    Attribute,
    Package,
    File,
}

pub enum KindView {
    Type(Type),
    Object(Object),
    InterfaceFile(EntityId),
    Function { formals: Seq<FormalView>, return_type: EntityId },
    Procedure { formals: Seq<FormalView> },
    Alias,
    Component,
    Attribute,
    Package,
    File,
}

impl View for AnyEntKind {
    type V = KindView;

    open spec fn view(&self) -> KindView {
        match self {
            AnyEntKind::Type(t) => KindView::Type(*t),
            AnyEntKind::Object(o) => KindView::Object(*o),
            AnyEntKind::InterfaceFile(t) => KindView::InterfaceFile(*t),
            AnyEntKind::Function { formals, return_type } => KindView::Function {
                formals: formals@,
                return_type: *return_type,
            },
            AnyEntKind::Procedure { formals } => KindView::Procedure { formals: formals@ },
            AnyEntKind::Alias => KindView::Alias,
            AnyEntKind::Component => KindView::Component,
            AnyEntKind::Attribute => KindView::Attribute,
            AnyEntKind::Package => KindView::Package,
            AnyEntKind::File => KindView::File,
        }
    }
}

impl AnyEntKind {
    pub fn new_function_decl(formals: FormalRegion, return_type: EntityId) -> (r: AnyEntKind)
        ensures
            r@ == (KindView::Function { formals: formals@, return_type }),
    {
        AnyEntKind::Function { formals, return_type }
    }

    pub fn new_procedure_decl(formals: FormalRegion) -> (r: AnyEntKind)
        ensures
            r@ == (KindView::Procedure { formals: formals@ }),
    {
        AnyEntKind::Procedure { formals }
    }
}

/// A named declaration held by an arena.
#[derive(Debug)]
pub struct Entity {
    pub designator: Designator,
    pub kind: AnyEntKind,
    pub decl_pos: Option<Range>,
    /// The type that an implicit declaration belongs to.
    pub parent: Option<EntityId>,
    /// The implicit declarations attached to a type.
    pub implicits: Vec<EntityId>,
}

pub struct EntityView {
    pub designator: DesignatorView,
    pub kind: KindView,
    pub decl_pos: Option<Range>,
    pub parent: Option<EntityId>,
    pub implicits: Seq<EntityId>,
}

impl View for Entity {
    type V = EntityView;

    open spec fn view(&self) -> EntityView {
        EntityView {
            designator: self.designator@,
            kind: self.kind@,
            decl_pos: self.decl_pos,
            parent: self.parent,
            implicits: self.implicits@,
        }
    }
}

/// Whether the entity is a type whose kind carries a list of implicits.
pub open spec fn hosts_implicits(e: EntityView) -> bool {
    match e.kind {
        KindView::Type(t) => t.spec_has_implicits(),
        _ => false,
    }
}

impl Entity {
    pub fn has_implicits_slot(&self) -> (r: bool)
        ensures
            r == hosts_implicits(self@),
    {
        match &self.kind {
            AnyEntKind::Type(t) => t.has_implicits(),
            _ => false,
        }
    }

    pub fn is_type(&self) -> (r: bool)
        ensures
            r == (self@.kind is Type),
    {
        match &self.kind {
            AnyEntKind::Type(_) => true,
            _ => false,
        }
    }
}

/// The store that owns every entity; an entity's id is its index.
#[derive(Debug)]
pub struct Arena {
    ents: Vec<Entity>,
}

impl View for Arena {
    type V = Seq<EntityView>;

    closed spec fn view(&self) -> Seq<EntityView> {
        self.ents@.map_values(|e: Entity| e@)
    }
}

pub open spec fn explicit_view(
    designator: DesignatorView,
    kind: KindView,
    decl_pos: Option<Range>,
) -> EntityView {
    EntityView { designator, kind, decl_pos, parent: None, implicits: Seq::empty() }
}

pub open spec fn implicit_view(
    parent: EntityId,
    designator: DesignatorView,
    kind: KindView,
    decl_pos: Option<Range>,
) -> EntityView {
    EntityView { designator, kind, decl_pos, parent: Some(parent), implicits: Seq::empty() }
}

/// The entity with its list of implicits extended by `id`.
pub open spec fn with_implicit(e: EntityView, id: EntityId) -> EntityView {
    EntityView { implicits: e.implicits.push(id), ..e }
}

impl Arena {
    pub fn new() -> (r: Arena)
        ensures
            r@ == Seq::<EntityView>::empty(),
    {
        let r = Arena { ents: Vec::new() };
        assert(r@ =~= Seq::<EntityView>::empty());
        r
    }

    pub fn len(&self) -> (r: usize)
        ensures
            r == self@.len(),
    {
        self.ents.len()
    }

    pub fn get(&self, id: EntityId) -> (r: &Entity)
        requires
            id < self@.len(),
        ensures
            r@ == self@[id as int],
    {
        &self.ents[id]
    }

    /// Allocates an entity written in the source.
    pub fn explicit(&mut self, designator: Designator, kind: AnyEntKind, decl_pos: Option<Range>) -> (r: EntityId)
        requires
            old(self)@.len() < usize::MAX,
        ensures
            r == old(self)@.len(),
            final(self)@ == old(self)@.push(explicit_view(designator@, kind@, decl_pos)),
    {
        let r = self.ents.len();
        self.ents.push(Entity { designator, kind, decl_pos, parent: None, implicits: Vec::new() });
        assert(self@ =~= old(self)@.push(explicit_view(designator@, kind@, decl_pos)));
        r
    }

    /// Allocates an entity that the language declares implicitly along with `parent`.
    pub fn implicit(
        &mut self,
        parent: EntityId,
        designator: Designator,
        kind: AnyEntKind,
        decl_pos: Option<Range>,
    ) -> (r: EntityId)
        requires
            old(self)@.len() < usize::MAX,
        ensures
            r == old(self)@.len(),
            final(self)@ == old(self)@.push(implicit_view(parent, designator@, kind@, decl_pos)),
    {
        let r = self.ents.len();
        self.ents.push(Entity { designator, kind, decl_pos, parent: Some(parent), implicits: Vec::new() });
        assert(self@ =~= old(self)@.push(implicit_view(parent, designator@, kind@, decl_pos)));
        r
    }

    /// Appends `id` to the implicits of the entity `typ`.
    pub fn push_implicit(&mut self, typ: EntityId, id: EntityId)
        requires
            typ < old(self)@.len(),
        ensures
            final(self)@ == old(self)@.update(typ as int, with_implicit(old(self)@[typ as int], id)),
    {
        let mut e = self.ents.remove(typ);
        e.implicits.push(id);
        self.ents.insert(typ, e);
        assert(self@ =~= old(self)@.update(typ as int, with_implicit(old(self)@[typ as int], id)));
    }
}

} // verus!

use vstd::prelude::*;
use itertools::Itertools;
use crate::entity::{Designator, DesignatorView, Operator};
use crate::position::{pos_le, pos_lt, Position, Range};

verus! {

/// The kinds of lexical token that completion tells apart.
#[derive(PartialEq, Eq, Structural, Clone, Copy, Debug)]
pub enum Kind {
    Use,
    Library,
    Dot,
    Identifier,
    StringLiteral,
    All,
    Is,
    SemiColon,
    Comma,
    /// Any other reserved word or delimiter.
    Other,
}

#[derive(Debug, PartialEq, Eq)]
pub enum Value {
    Identifier(String),
    String(String),
    NoValue,
}

pub enum ValueView {
    Identifier(Seq<char>),
    String(Seq<char>),
    NoValue,
}

impl View for Value {
    type V = ValueView;

    open spec fn view(&self) -> ValueView {
        match self {
            Value::Identifier(s) => ValueView::Identifier(s@),
            Value::String(s) => ValueView::String(s@),
            Value::NoValue => ValueView::NoValue,
        }
    }
}

#[derive(Debug, PartialEq, Eq)]
pub struct Token {
    pub kind: Kind,
    pub value: Value,
    pub pos: Range,
}

pub struct TokenView {
    pub kind: Kind,
    pub value: ValueView,
    pub pos: Range,
}

impl View for Token {
    type V = TokenView;

    open spec fn view(&self) -> TokenView {
        TokenView { kind: self.kind, value: self.value@, pos: self.pos }
    }
}

/// The tokenizer could not read the source.
#[derive(PartialEq, Eq, Structural, Clone, Copy, Debug)]
pub struct LexError;

/// What the tokenizer hands out, one item per call, in source order.
pub type Lexed = Result<Token, LexError>;

fn copy_value(v: &Value) -> (r: Value)
    ensures
        r@ == v@,
{
    match v {
        Value::Identifier(s) => Value::Identifier(s.clone()),
        Value::String(s) => Value::String(s.clone()),
        Value::NoValue => Value::NoValue,
    }
}

fn copy_token(t: &Token) -> (r: Token)
    ensures
        r@ == t@,
{
    Token { kind: t.kind, value: copy_value(&t.value), pos: t.pos }
}

/// The tokens of `s` that start before `cursor`, reading no further than the
/// first token that does not; `None` where the tokenizer fails before that.
pub open spec fn tokens_upto(s: Seq<Lexed>, cursor: Position) -> Option<Seq<TokenView>>
    decreases s.len(),
{
    if s.len() == 0 {
        Some(Seq::empty())
    } else {
        match s[0] {
            Err(_) => None,
            Ok(t) => if pos_le(cursor, t.pos.start) {
                Some(Seq::empty())
            } else {
                match tokens_upto(s.drop_first(), cursor) {
                    Some(rest) => Some(seq![t@] + rest),
                    None => None,
                }
            },
        }
    }
}

/// The tokens before the cursor, or none where the tokenizer failed.
pub open spec fn tokens_before(s: Seq<Lexed>, cursor: Position) -> Seq<TokenView> {
    match tokens_upto(s, cursor) {
        Some(ts) => ts,
        None => Seq::empty(),
    }
}

pub open spec fn token_views(ts: Seq<Token>) -> Seq<TokenView> {
    ts.map_values(|t: Token| t@)
}

/// Reads tokens up to the cursor and no further. The last one returned is
/// the token that the cursor is in, or the one right before the cursor; a
/// token that starts at the cursor is left out. On a tokenizer error, or for
/// an empty source, the result is empty.
pub fn tokenize_input(stream: &Vec<Lexed>, cursor: Position) -> (r: Vec<Token>)
    ensures
        token_views(r@) == tokens_before(stream@, cursor),
{
    let ghost s = stream@;
    let mut tokens: Vec<Token> = Vec::new();
    let mut i: usize = 0;
    proof {
        assert(s.subrange(0, s.len() as int) =~= s);
        assert(token_views(tokens@) =~= Seq::<TokenView>::empty());
        match tokens_upto(s, cursor) {
            Some(rest) => {
                assert(token_views(tokens@) + rest =~= rest);
            },
            None => {},
        }
    }
    while i < stream.len()
        invariant
            i <= s.len(),
            s == stream@,
            tokens_upto(s, cursor) == match tokens_upto(s.subrange(i as int, s.len() as int), cursor) {
                Some(rest) => Some(token_views(tokens@) + rest),
                None => None::<Seq<TokenView>>,
            },
        decreases s.len() - i,
    {
        let ghost tail = s.subrange(i as int, s.len() as int);
        assert(tail.drop_first() =~= s.subrange(i + 1, s.len() as int));
        match &stream[i] {
            Ok(token) => {
                if cursor.le(&token.pos.start) {
                    assert(token_views(tokens@) + Seq::<TokenView>::empty() =~= token_views(tokens@));
                    return tokens;
                }
                let ghost before = token_views(tokens@);
                tokens.push(copy_token(token));
                assert(token_views(tokens@) =~= before.push(token@));
                proof {
                    match tokens_upto(s.subrange(i + 1, s.len() as int), cursor) {
                        Some(rest) => {
                            assert(before + (seq![token@] + rest) =~= before.push(token@) + rest);
                        },
                        None => {},
                    }
                }
            },
            Err(_) => {
                return Vec::new();
            },
        }
        i += 1;
    }
    assert(s.subrange(i as int, s.len() as int) =~= Seq::<Lexed>::empty());
    assert(token_views(tokens@) + Seq::<TokenView>::empty() =~= token_views(tokens@));
    tokens
}


/// How an operator symbol is written as a designator: quoted.
pub open spec fn operator_text(op: Operator) -> Seq<char> {
    match op {
        Operator::EQ => "\"=\""@,
        Operator::NE => "\"/=\""@,
        Operator::LT => "\"<\""@,
        Operator::LTE => "\"<=\""@,
        Operator::GT => "\">\""@,
        Operator::GTE => "\">=\""@,
        Operator::Plus => "\"+\""@,
        Operator::Minus => "\"-\""@,
        Operator::Abs => "\"abs\""@,
        Operator::Concat => "\"&\""@,
        Operator::And => "\"and\""@,
        Operator::Or => "\"or\""@,
        Operator::Nand => "\"nand\""@,
        Operator::Nor => "\"nor\""@,
        Operator::Xor => "\"xor\""@,
        Operator::Xnor => "\"xnor\""@,
        Operator::Not => "\"not\""@,
    }
}

pub fn operator_to_string(op: Operator) -> (r: String)
    ensures
        r@ == operator_text(op),
{
    let t = match op {
        Operator::EQ => "\"=\"",
        Operator::NE => "\"/=\"",
        Operator::LT => "\"<\"",
        Operator::LTE => "\"<=\"",
        Operator::GT => "\">\"",
        Operator::GTE => "\">=\"",
        Operator::Plus => "\"+\"",
        Operator::Minus => "\"-\"",
        Operator::Abs => "\"abs\"",
        Operator::Concat => "\"&\"",
        Operator::And => "\"and\"",
        Operator::Or => "\"or\"",
        Operator::Nand => "\"nand\"",
        Operator::Nor => "\"nor\"",
        Operator::Xor => "\"xor\"",
        Operator::Xnor => "\"xnor\"",
        Operator::Not => "\"not\"",
    };
    t.to_owned()
}

pub open spec fn designator_text(d: DesignatorView) -> Seq<char> {
    match d {
        DesignatorView::Identifier(s) => s,
        DesignatorView::OperatorSymbol(op) => operator_text(op),
    }
}

pub fn designator_to_string(d: &Designator) -> (r: String)
    ensures
        r@ == designator_text(d@),
{
    match d {
        Designator::Identifier(s) => s.clone(),
        Designator::OperatorSymbol(op) => operator_to_string(*op),
    }
}

#[derive(Debug, PartialEq, Eq)]
pub enum Attribute {
    Specification(String),
    Declaration(String),
}

/// A declaration of a package, reduced to what completion reads of it.
#[derive(Debug, PartialEq, Eq)]
pub enum Declaration {
    Object(String),
    File(String),
    Type(String),
    Component(String),
    Attribute(Attribute),
    Alias(Designator),
    SubprogramDeclaration(Designator),
    SubprogramBody(Designator),
    Use,
    Package(String),
    Configuration,
}

/// What completion proposes for a declaration, if anything.
pub open spec fn declaration_text(d: Declaration) -> Option<Seq<char>> {
    match d {
        Declaration::Object(s) => Some(s@),
        Declaration::File(s) => Some(s@),
        Declaration::Type(s) => Some(s@),
        Declaration::Component(s) => Some(s@),
        Declaration::Attribute(Attribute::Specification(s)) => Some(s@),
        Declaration::Attribute(Attribute::Declaration(s)) => Some(s@),
        Declaration::Alias(d) => Some(designator_text(d@)),
        Declaration::SubprogramDeclaration(d) => Some(designator_text(d@)),
        Declaration::SubprogramBody(_) => None,
        Declaration::Use => None,
        Declaration::Package(s) => Some(s@),
        Declaration::Configuration => None,
    }
}

/// Returns the text that completion proposes for a declaration, or `None`
/// for one that has none (a subprogram body, a use clause, a configuration).
pub fn declaration_to_string(decl: &Declaration) -> (r: Option<String>)
    ensures
        match r {
            Some(s) => declaration_text(*decl) == Some(s@),
            None => declaration_text(*decl) is None,
        },
{
    match decl {
        Declaration::Object(s) => Some(s.clone()),
        Declaration::File(s) => Some(s.clone()),
        Declaration::Type(s) => Some(s.clone()),
        Declaration::Component(s) => Some(s.clone()),
        Declaration::Attribute(a) => match a {
            Attribute::Specification(s) => Some(s.clone()),
            Attribute::Declaration(s) => Some(s.clone()),
        },
        Declaration::Alias(d) => Some(designator_to_string(d)),
        Declaration::SubprogramDeclaration(d) => Some(designator_to_string(d)),
        Declaration::SubprogramBody(_) => None,
        Declaration::Use => None,
        Declaration::Package(s) => Some(s.clone()),
        Declaration::Configuration => None,
    }
}

#[derive(Debug, PartialEq, Eq)]
pub struct PackageDeclaration {
    pub ident: String,
    pub decl: Vec<Declaration>,
}

#[derive(Debug, PartialEq, Eq)]
pub enum AnyPrimaryUnit {
    Entity,
    Configuration,
    Package(PackageDeclaration),
    PackageInstance,
    Context,
}

#[derive(Debug, PartialEq, Eq)]
pub enum AnyDesignUnit {
    Primary(AnyPrimaryUnit),
    Secondary,
}

/// How a library names a unit: a primary unit by its name, a secondary
/// unit by its primary unit's name and its own.
#[derive(Debug, PartialEq, Eq)]
pub enum UnitKey {
    Primary(String),
    Secondary(String, String),
}

#[derive(Debug)]
pub struct LibraryUnit {
    pub key: UnitKey,
    pub unit: AnyDesignUnit,
}

#[derive(Debug)]
pub struct Library {
    pub name: String,
    pub units: Vec<LibraryUnit>,
}

/// The libraries known to the analyzer.
#[derive(Debug)]
pub struct DesignRoot {
    pub libraries: Vec<Library>,
}

pub open spec fn texts(v: Seq<String>) -> Seq<Seq<char>> {
    v.map_values(|s: String| s@)
}

/// Each string of `s` once, where it first occurs, in order.
pub open spec fn first_seen(s: Seq<Seq<char>>) -> Seq<Seq<char>>
    decreases s.len(),
{
    if s.len() == 0 {
        Seq::empty()
    } else {
        let p = first_seen(s.drop_last());
        if p.contains(s.last()) {
            p
        } else {
            p.push(s.last())
        }
    }
}

/// Relies on itertools' `Itertools::unique`: it yields each element whose
/// equal it has not yielded yet, in the order of the input.
#[verifier::external_body]
fn unique_strings(v: Vec<String>) -> (r: Vec<String>)
    ensures
        texts(r@) == first_seen(texts(v@)),
{
    v.into_iter().unique().collect_vec()
}

pub open spec fn library_names(libs: Seq<Library>) -> Seq<Seq<char>> {
    libs.map_values(|l: Library| l.name@)
}

/// The first library from `i` on named `name`.
pub open spec fn find_library(libs: Seq<Library>, name: Seq<char>, i: int) -> Option<int>
    decreases libs.len() - i,
{
    if i < 0 || i >= libs.len() {
        None
    } else if libs[i].name@ == name {
        Some(i)
    } else {
        find_library(libs, name, i + 1)
    }
}

/// The names of the primary units among `units`, in order.
pub open spec fn primary_names(units: Seq<LibraryUnit>) -> Seq<Seq<char>>
    decreases units.len(),
{
    if units.len() == 0 {
        Seq::empty()
    } else {
        primary_names(units.drop_last()) + match units.last().key {
            UnitKey::Primary(p) => seq![p@],
            UnitKey::Secondary(_, _) => Seq::empty(),
        }
    }
}

/// The first primary unit from `i` on named `name`.
pub open spec fn find_primary(units: Seq<LibraryUnit>, name: Seq<char>, i: int) -> Option<int>
    decreases units.len() - i,
{
    if i < 0 || i >= units.len() {
        None
    } else if units[i].key matches UnitKey::Primary(p) && p@ == name {
        Some(i)
    } else {
        find_primary(units, name, i + 1)
    }
}

/// What completion proposes for the declarations `ds`, in order, repeats kept.
pub open spec fn declaration_texts(ds: Seq<Declaration>) -> Seq<Seq<char>>
    decreases ds.len(),
{
    if ds.len() == 0 {
        Seq::empty()
    } else {
        declaration_texts(ds.drop_last()) + match declaration_text(ds.last()) {
            Some(t) => seq![t],
            None => Seq::empty(),
        }
    }
}

fn kind_at(tokens: &Vec<Token>, i: usize) -> (r: Kind)
    requires
        i < tokens@.len(),
    ensures
        r == tokens@[i as int].kind,
{
    tokens[i].kind
}

/// The name that the token `i` binds, where it is an identifier.
fn ident_at(tokens: &Vec<Token>, i: usize) -> (r: Option<&String>)
    requires
        i < tokens@.len(),
    ensures
        match r {
            Some(s) => tokens@[i as int].kind == Kind::Identifier && tokens@[i as int].value@
                == ValueView::Identifier(s@),
            None => !(tokens@[i as int].kind == Kind::Identifier && tokens@[i as int].value is Identifier),
        },
{
    if tokens[i].kind == Kind::Identifier {
        if let Value::Identifier(s) = &tokens[i].value {
            return Some(s);
        }
    }
    None
}

fn primary_index(units: &Vec<LibraryUnit>, name: &String) -> (r: Option<usize>)
    ensures
        match r {
            Some(j) => j < units@.len() && find_primary(units@, name@, 0) == Some(j as int),
            None => find_primary(units@, name@, 0) is None,
        },
{
    let mut j: usize = 0;
    while j < units.len()
        invariant
            j <= units@.len(),
            find_primary(units@, name@, 0) == find_primary(units@, name@, j as int),
        decreases units@.len() - j,
    {
        if let UnitKey::Primary(p) = &units[j].key {
            if *p == *name {
                return Some(j);
            }
        }
        j += 1;
    }
    None
}

/// No two primary units of `units` share a name.
pub open spec fn primaries_unique(units: Seq<LibraryUnit>) -> bool {
    forall|i: int, j: int|
        0 <= i < units.len() && 0 <= j < units.len() && i != j && #[trigger] units[i].key is Primary
            && #[trigger] units[j].key is Primary ==> units[i].key->Primary_0@ != units[j].key->Primary_0@
}

/// No declaration of a package is named `all`, a reserved word.
pub open spec fn declares_no_all(unit: AnyDesignUnit) -> bool {
    match unit {
        AnyDesignUnit::Primary(AnyPrimaryUnit::Package(pkg)) => !declaration_texts(pkg.decl@).contains("all"@),
        _ => true,
    }
}

proof fn lemma_first_seen(s: Seq<Seq<char>>)
    ensures
        first_seen(s).no_duplicates(),
        forall|x: Seq<char>| #[trigger] first_seen(s).contains(x) ==> s.contains(x),
    decreases s.len(),
{
    if s.len() > 0 {
        let d = s.drop_last();
        lemma_first_seen(d);
        assert forall|x: Seq<char>| d.contains(x) implies s.contains(x) by {
            let i = choose|i: int| 0 <= i < d.len() && d[i] == x;
            assert(s[i] == x);
        }
        let p = first_seen(d);
        if !p.contains(s.last()) {
            let q = p.push(s.last());
            assert forall|i: int, j: int| 0 <= i < q.len() && 0 <= j < q.len() && i != j implies q[i] != q[j] by {
                if i == p.len() as int {
                    assert(p.contains(q[j]));
                } else if j == p.len() as int {
                    assert(p.contains(q[i]));
                }
            }
            assert forall|x: Seq<char>| #[trigger] q.contains(x) implies s.contains(x) by {
                let i = choose|i: int| 0 <= i < q.len() && q[i] == x;
                if i < p.len() {
                    assert(p.contains(x));
                } else {
                    assert(s[s.len() - 1] == x);
                }
            }
        }
    }
}

proof fn lemma_primary_names(units: Seq<LibraryUnit>)
    requires
        primaries_unique(units),
    ensures
        primary_names(units).no_duplicates(),
        forall|x: Seq<char>| #[trigger] primary_names(units).contains(x) ==> exists|i: int|
            0 <= i < units.len() && #[trigger] units[i].key is Primary && units[i].key->Primary_0@ == x,
    decreases units.len(),
{
    if units.len() > 0 {
        let d = units.drop_last();
        assert forall|i: int, j: int|
            0 <= i < d.len() && 0 <= j < d.len() && i != j && #[trigger] d[i].key is Primary
                && #[trigger] d[j].key is Primary implies d[i].key->Primary_0@ != d[j].key->Primary_0@ by {
            assert(units[i] == d[i] && units[j] == d[j]);
        }
        lemma_primary_names(d);
        let p = primary_names(d);
        let n = units.len() - 1;
        assert forall|x: Seq<char>| #[trigger] p.contains(x) implies exists|i: int|
            0 <= i < units.len() && #[trigger] units[i].key is Primary && units[i].key->Primary_0@ == x by {
            let i = choose|i: int| 0 <= i < d.len() && #[trigger] d[i].key is Primary && d[i].key->Primary_0@ == x;
            assert(units[i] == d[i]);
        }
        if let UnitKey::Primary(name) = units.last().key {
            let q = p.push(name@);
            assert(q == primary_names(units));
            assert(!p.contains(name@)) by {
                if p.contains(name@) {
                    let i = choose|i: int| 0 <= i < d.len() && #[trigger] d[i].key is Primary && d[i].key->Primary_0@ == name@;
                    assert(units[i] == d[i]);
                    assert(units[n].key is Primary);
                }
            }
            assert forall|i: int, j: int| 0 <= i < q.len() && 0 <= j < q.len() && i != j implies q[i] != q[j] by {
                if i == p.len() as int {
                    assert(p.contains(q[j]));
                } else if j == p.len() as int {
                    assert(p.contains(q[i]));
                }
            }
            assert forall|x: Seq<char>| #[trigger] q.contains(x) implies exists|i: int|
                0 <= i < units.len() && #[trigger] units[i].key is Primary && units[i].key->Primary_0@ == x by {
                let i = choose|i: int| 0 <= i < q.len() && q[i] == x;
                if i < p.len() {
                    assert(p.contains(x));
                } else {
                    assert(units[n].key is Primary);
                }
            }
        } else {
            assert(primary_names(units) =~= p);
        }
    }
}

proof fn lemma_find_library(libs: Seq<Library>, name: Seq<char>, i: int)
    ensures
        find_library(libs, name, i) matches Some(k) ==> 0 <= k < libs.len(),
    decreases libs.len() - i,
{
    if 0 <= i < libs.len() {
        lemma_find_library(libs, name, i + 1);
    }
}

proof fn lemma_find_primary(units: Seq<LibraryUnit>, name: Seq<char>, i: int)
    ensures
        find_primary(units, name, i) matches Some(k) ==> 0 <= k < units.len(),
    decreases units.len() - i,
{
    if 0 <= i < units.len() {
        lemma_find_primary(units, name, i + 1);
    }
}

impl DesignRoot {
    /// Library names are unique, as are the names of the primary units of
    /// each library, and no package declares `all`.
    pub open spec fn wf(&self) -> bool {
        let libs = self.libraries@;
        &&& forall|i: int, j: int|
            0 <= i < libs.len() && 0 <= j < libs.len() && i != j ==> #[trigger] libs[i].name@
                != #[trigger] libs[j].name@
        &&& forall|l: int| 0 <= l < libs.len() ==> primaries_unique(#[trigger] libs[l].units@)
        &&& forall|l: int, u: int|
            0 <= l < libs.len() && 0 <= u < libs[l].units@.len() ==> declares_no_all(
                #[trigger] libs[l].units@[u].unit,
            )
    }

    /// On a well-formed root, no completion is proposed twice.
    pub proof fn lemma_completion_distinct(&self, ts: Seq<TokenView>)
        requires
            self.wf(),
        ensures
            self.completion(ts).no_duplicates(),
    {
        let libs = self.libraries@;
        let names = library_names(libs);
        assert forall|i: int, j: int| 0 <= i < names.len() && 0 <= j < names.len() && i != j implies names[i]
            != names[j] by {
            assert(names[i] == libs[i].name@ && names[j] == libs[j].name@);
        }
        assert forall|lib: Seq<char>| #[trigger] self.primaries_for(lib).no_duplicates() by {
            lemma_find_library(libs, lib, 0);
            if let Some(l) = find_library(libs, lib, 0) {
                assert(primaries_unique(libs[l].units@));
                lemma_primary_names(libs[l].units@);
            }
        }
        assert forall|lib: Seq<char>, prim: Seq<char>| #[trigger] self.declarations_for(lib, prim).no_duplicates() by {
            lemma_find_library(libs, lib, 0);
            if let Some(l) = find_library(libs, lib, 0) {
                let units = libs[l].units@;
                lemma_find_primary(units, prim, 0);
                if let Some(u) = find_primary(units, prim, 0) {
                    assert(declares_no_all(libs[l].units@[u].unit));
                    if let AnyDesignUnit::Primary(AnyPrimaryUnit::Package(pkg)) = units[u].unit {
                        let t = declaration_texts(pkg.decl@);
                        lemma_first_seen(t);
                        let f = first_seen(t);
                        let q = f.push("all"@);
                        assert(!f.contains("all"@));
                        assert forall|i: int, j: int| 0 <= i < q.len() && 0 <= j < q.len() && i != j implies q[i]
                            != q[j] by {
                            if i == f.len() as int {
                                assert(f.contains(q[j]));
                            } else if j == f.len() as int {
                                assert(f.contains(q[i]));
                            }
                        }
                    }
                }
            }
        }
        assert(Seq::<Seq<char>>::empty().no_duplicates());
    }

    pub open spec fn primaries_for(&self, lib: Seq<char>) -> Seq<Seq<char>> {
        match find_library(self.libraries@, lib, 0) {
            Some(i) => primary_names(self.libraries@[i].units@),
            None => Seq::empty(),
        }
    }

    pub open spec fn declarations_for(&self, lib: Seq<char>, primary: Seq<char>) -> Seq<Seq<char>> {
        match find_library(self.libraries@, lib, 0) {
            Some(i) => {
                let units = self.libraries@[i].units@;
                match find_primary(units, primary, 0) {
                    Some(j) => match units[j].unit {
                        AnyDesignUnit::Primary(AnyPrimaryUnit::Package(pkg)) => first_seen(
                            declaration_texts(pkg.decl@),
                        ).push("all"@),
                        _ => Seq::empty(),
                    },
                    None => Seq::empty(),
                }
            },
            None => Seq::empty(),
        }
    }

    /// What completion proposes after the tokens `ts`, by their tail.
    pub open spec fn completion(&self, ts: Seq<TokenView>) -> Seq<Seq<char>> {
        let n = ts.len() as int;
        let k = |i: int| ts[n - i].kind;
        let ident = |i: int| ts[n - i].kind == Kind::Identifier && ts[n - i].value is Identifier;
        let name = |i: int| ts[n - i].value->Identifier_0;
        if (n >= 1 && (k(1) == Kind::Library || k(1) == Kind::Use)) || (n >= 2 && k(2) == Kind::Use && k(1)
            == Kind::Identifier) {
            library_names(self.libraries@)
        } else if n >= 3 && k(3) == Kind::Use && ident(2) && k(1) == Kind::Dot {
            self.primaries_for(name(2))
        } else if n >= 4 && k(4) == Kind::Use && ident(3) && k(2) == Kind::Dot && k(1) == Kind::Identifier {
            self.primaries_for(name(3))
        } else if n >= 5 && k(5) == Kind::Use && ident(4) && k(3) == Kind::Dot && ident(2) && k(1)
            == Kind::Dot {
            self.declarations_for(name(4), name(2))
        } else if n >= 6 && k(6) == Kind::Use && ident(5) && k(4) == Kind::Dot && ident(3) && k(2)
            == Kind::Dot && (k(1) == Kind::StringLiteral || k(1) == Kind::Identifier || k(1) == Kind::All) {
            self.declarations_for(name(5), name(3))
        } else {
            Seq::empty()
        }
    }

    /// The names of all libraries.
    fn list_all_libraries(&self) -> (r: Vec<String>)
        ensures
            texts(r@) == library_names(self.libraries@),
    {
        let mut r: Vec<String> = Vec::new();
        let mut i: usize = 0;
        while i < self.libraries.len()
            invariant
                i <= self.libraries@.len(),
                r@.len() == i,
                forall|j: int| 0 <= j < i ==> r@[j]@ == #[trigger] self.libraries@[j].name@,
            decreases self.libraries@.len() - i,
        {
            r.push(self.libraries[i].name.clone());
            i += 1;
        }
        assert(texts(r@) =~= library_names(self.libraries@));
        r
    }

    fn library_index(&self, lib: &String) -> (r: Option<usize>)
        ensures
            match r {
                Some(i) => i < self.libraries@.len() && find_library(self.libraries@, lib@, 0) == Some(
                    i as int,
                ),
                None => find_library(self.libraries@, lib@, 0) is None,
            },
    {
        let mut i: usize = 0;
        while i < self.libraries.len()
            invariant
                i <= self.libraries@.len(),
                find_library(self.libraries@, lib@, 0) == find_library(self.libraries@, lib@, i as int),
            decreases self.libraries@.len() - i,
        {
            if self.libraries[i].name == *lib {
                return Some(i);
            }
            i += 1;
        }
        None
    }

    /// The names of the primary units of the library `lib`; none where there
    /// is no such library.
    fn list_primaries_for_lib(&self, lib: &String) -> (r: Vec<String>)
        ensures
            texts(r@) == self.primaries_for(lib@),
    {
        let Some(li) = self.library_index(lib) else {
            let none: Vec<String> = Vec::new();
            assert(texts(none@) =~= Seq::<Seq<char>>::empty());
            return none;
        };
        let units = &self.libraries[li].units;
        let mut r: Vec<String> = Vec::new();
        let mut i: usize = 0;
        while i < units.len()
            invariant
                i <= units@.len(),
                texts(r@) == primary_names(units@.take(i as int)),
            decreases units@.len() - i,
        {
            assert(units@.take(i + 1).drop_last() =~= units@.take(i as int));
            if let UnitKey::Primary(p) = &units[i].key {
                r.push(p.clone());
            }
            assert(texts(r@) =~= primary_names(units@.take(i + 1)));
            i += 1;
        }
        assert(units@.take(i as int) =~= units@);
        r
    }

    /// The declarations of the primary unit `primary_unit` of the library
    /// `lib`, each once, then `all`; none where there is no such library or
    /// unit, or the unit is not a package.
    fn list_available_declarations(&self, lib: &String, primary_unit: &String) -> (r: Vec<String>)
        ensures
            texts(r@) == self.declarations_for(lib@, primary_unit@),
    {
        let Some(li) = self.library_index(lib) else {
            let none: Vec<String> = Vec::new();
            assert(texts(none@) =~= Seq::<Seq<char>>::empty());
            return none;
        };
        let units = &self.libraries[li].units;
        let Some(j) = primary_index(units, primary_unit) else {
            let none: Vec<String> = Vec::new();
            assert(texts(none@) =~= Seq::<Seq<char>>::empty());
            return none;
        };
        match &units[j].unit {
            AnyDesignUnit::Primary(AnyPrimaryUnit::Package(pkg)) => {
                let decls = &pkg.decl;
                let mut found: Vec<String> = Vec::new();
                let mut i: usize = 0;
                while i < decls.len()
                    invariant
                        i <= decls@.len(),
                        texts(found@) == declaration_texts(decls@.take(i as int)),
                    decreases decls@.len() - i,
                {
                    assert(decls@.take(i + 1).drop_last() =~= decls@.take(i as int));
                    if let Some(t) = declaration_to_string(&decls[i]) {
                        found.push(t);
                    }
                    assert(texts(found@) =~= declaration_texts(decls@.take(i + 1)));
                    i += 1;
                }
                assert(decls@.take(i as int) =~= decls@);
                let mut r = unique_strings(found);
                let ghost before = texts(r@);
                r.push("all".to_owned());
                assert(texts(r@) =~= before.push("all"@));
                r
            },
            _ => {
                let none: Vec<String> = Vec::new();
                assert(texts(none@) =~= Seq::<Seq<char>>::empty());
                none
            },
        }
    }

    /// Proposes completions for the cursor at `cursor`, given what the
    /// tokenizer hands out for the source: library names after `library`,
    /// `use` or `use lib`; the primary units of `lib` after `use lib.` or
    /// `use lib.name`; the declarations of `lib.unit` and `all` after
    /// `use lib.unit.` and one more name, string or `all`; nothing otherwise.
    pub fn list_completion_options(&self, stream: &Vec<Lexed>, cursor: Position) -> (r: Vec<String>)
        requires
            self.wf(),
        ensures
            texts(r@) == self.completion(tokens_before(stream@, cursor)),
            texts(r@).no_duplicates(),
    {
        proof {
            self.lemma_completion_distinct(tokens_before(stream@, cursor));
        }
        let tokens = tokenize_input(stream, cursor);
        let ghost ts = token_views(tokens@);
        assert(ts.len() == tokens@.len());
        assert(forall|j: int| 0 <= j < ts.len() ==> #[trigger] ts[j] == tokens@[j]@);
        let n = tokens.len();
        if (n >= 1 && (kind_at(&tokens, n - 1) == Kind::Library || kind_at(&tokens, n - 1) == Kind::Use)) || (n
            >= 2 && kind_at(&tokens, n - 2) == Kind::Use && kind_at(&tokens, n - 1) == Kind::Identifier) {
            return self.list_all_libraries();
        }
        if n >= 3 && kind_at(&tokens, n - 3) == Kind::Use && kind_at(&tokens, n - 1) == Kind::Dot {
            if let Some(library) = ident_at(&tokens, n - 2) {
                return self.list_primaries_for_lib(library);
            }
        }
        if n >= 4 && kind_at(&tokens, n - 4) == Kind::Use && kind_at(&tokens, n - 2) == Kind::Dot && kind_at(
            &tokens,
            n - 1,
        ) == Kind::Identifier {
            if let Some(library) = ident_at(&tokens, n - 3) {
                return self.list_primaries_for_lib(library);
            }
        }
        if n >= 5 && kind_at(&tokens, n - 5) == Kind::Use && kind_at(&tokens, n - 3) == Kind::Dot && kind_at(
            &tokens,
            n - 1,
        ) == Kind::Dot {
            if let Some(library) = ident_at(&tokens, n - 4) {
                if let Some(selected) = ident_at(&tokens, n - 2) {
                    return self.list_available_declarations(library, selected);
                }
            }
        }
        if n >= 6 && kind_at(&tokens, n - 6) == Kind::Use && kind_at(&tokens, n - 4) == Kind::Dot && kind_at(
            &tokens,
            n - 2,
        ) == Kind::Dot && (kind_at(&tokens, n - 1) == Kind::StringLiteral || kind_at(&tokens, n - 1)
            == Kind::Identifier || kind_at(&tokens, n - 1) == Kind::All) {
            if let Some(library) = ident_at(&tokens, n - 5) {
                if let Some(selected) = ident_at(&tokens, n - 3) {
                    return self.list_available_declarations(library, selected);
                }
            }
        }
        let none: Vec<String> = Vec::new();
        assert(texts(none@) =~= Seq::<Seq<char>>::empty());
        none
    }
}

/// Every token kept starts strictly before the cursor: a token that starts
/// exactly at the cursor is left out.
pub proof fn lemma_tokens_start_before_cursor(s: Seq<Lexed>, cursor: Position)
    ensures
        forall|j: int| 0 <= j < tokens_before(s, cursor).len() ==> pos_lt(
            (#[trigger] tokens_before(s, cursor)[j]).pos.start,
            cursor,
        ),
    decreases s.len(),
{
    if s.len() > 0 {
        lemma_tokens_start_before_cursor(s.drop_first(), cursor);
        if let Ok(t) = s[0] {
            if !pos_le(cursor, t.pos.start) {
                if let Some(rest) = tokens_upto(s.drop_first(), cursor) {
                    assert forall|j: int| 0 <= j < tokens_before(s, cursor).len() implies pos_lt(
                        (#[trigger] tokens_before(s, cursor)[j]).pos.start,
                        cursor,
                    ) by {
                        if j > 0 {
                            assert(tokens_before(s, cursor)[j] == rest[j - 1]);
                        }
                    }
                }
            }
        }
    }
}

/// Where the tokenizer does not fail, each token that starts before the
/// cursor is kept, in its place; among them the token that the cursor is in.
pub proof fn lemma_token_before_cursor_kept(s: Seq<Lexed>, cursor: Position, k: int)
    requires
        0 <= k < s.len(),
        forall|j: int| 0 <= j < s.len() ==> #[trigger] s[j] is Ok,
        forall|j: int| 0 <= j <= k ==> pos_lt((#[trigger] s[j])->Ok_0.pos.start, cursor),
    ensures
        k < tokens_before(s, cursor).len(),
        tokens_before(s, cursor)[k] == s[k]->Ok_0@,
    decreases k,
{
    lemma_no_error(s, cursor);
    let t = s[0]->Ok_0;
    assert(pos_lt(s[0]->Ok_0.pos.start, cursor));
    lemma_no_error(s.drop_first(), cursor);
    if k > 0 {
        lemma_token_before_cursor_kept(s.drop_first(), cursor, k - 1);
    }
}

proof fn lemma_no_error(s: Seq<Lexed>, cursor: Position)
    requires
        forall|j: int| 0 <= j < s.len() ==> #[trigger] s[j] is Ok,
    ensures
        tokens_upto(s, cursor) is Some,
    decreases s.len(),
{
    if s.len() > 0 {
        assert(s[0] is Ok);
        assert forall|j: int| 0 <= j < s.drop_first().len() implies #[trigger] s.drop_first()[j] is Ok by {
            assert(s.drop_first()[j] == s[j + 1]);
        }
        lemma_no_error(s.drop_first(), cursor);
    }
}

/// With the cursor past the last token, and no tokenizer error, every token
/// is kept.
pub proof fn lemma_cursor_past_end(s: Seq<Lexed>, cursor: Position)
    requires
        forall|j: int| 0 <= j < s.len() ==> #[trigger] s[j] is Ok,
        forall|j: int| 0 <= j < s.len() ==> pos_lt((#[trigger] s[j])->Ok_0.pos.start, cursor),
    ensures
        tokens_before(s, cursor) == s.map_values(|l: Lexed| l->Ok_0@),
    decreases s.len(),
{
    let all = s.map_values(|l: Lexed| l->Ok_0@);
    if s.len() == 0 {
        assert(all =~= Seq::<TokenView>::empty());
    } else {
        let d = s.drop_first();
        assert forall|j: int| 0 <= j < d.len() implies #[trigger] d[j] is Ok && pos_lt(d[j]->Ok_0.pos.start, cursor) by {
            assert(d[j] == s[j + 1]);
        }
        lemma_cursor_past_end(d, cursor);
        assert(s[0] is Ok);
        assert(pos_lt(s[0]->Ok_0.pos.start, cursor));
        assert(all =~= seq![s[0]->Ok_0@] + d.map_values(|l: Lexed| l->Ok_0@));
    }
}

/// An empty source gives no tokens and no completions.
pub proof fn lemma_empty_source(root: &DesignRoot, cursor: Position)
    ensures
        tokens_before(Seq::<Lexed>::empty(), cursor).len() == 0,
        root.completion(tokens_before(Seq::<Lexed>::empty(), cursor)).len() == 0,
{
}

/// What follows the first token at or after the cursor does not matter: two
/// token streams that agree up to there, such as a source and the same
/// source with whitespace added after the cursor, give the same tokens and
/// so the same completions.
pub proof fn lemma_tokens_stable_after_cursor(root: &DesignRoot, s1: Seq<Lexed>, s2: Seq<Lexed>, cursor: Position, k: int)
    requires
        0 <= k <= s1.len(),
        k <= s2.len(),
        s1.take(k) == s2.take(k),
        k == s1.len() || (s1[k] is Ok && pos_le(cursor, s1[k]->Ok_0.pos.start)),
        k == s2.len() || (s2[k] is Ok && pos_le(cursor, s2[k]->Ok_0.pos.start)),
    ensures
        tokens_before(s1, cursor) == tokens_before(s2, cursor),
        root.completion(tokens_before(s1, cursor)) == root.completion(tokens_before(s2, cursor)),
    decreases k,
{
    lemma_tokens_upto_stable(s1, s2, cursor, k);
}

proof fn lemma_tokens_upto_stable(s1: Seq<Lexed>, s2: Seq<Lexed>, cursor: Position, k: int)
    requires
        0 <= k <= s1.len(),
        k <= s2.len(),
        s1.take(k) == s2.take(k),
        k == s1.len() || (s1[k] is Ok && pos_le(cursor, s1[k]->Ok_0.pos.start)),
        k == s2.len() || (s2[k] is Ok && pos_le(cursor, s2[k]->Ok_0.pos.start)),
    ensures
        tokens_upto(s1, cursor) == tokens_upto(s2, cursor),
    decreases k,
{
    if k > 0 {
        assert(s1[0] == s1.take(k)[0]);
        assert(s2[0] == s2.take(k)[0]);
        let (d1, d2) = (s1.drop_first(), s2.drop_first());
        assert(d1.take(k - 1) =~= s1.take(k).drop_first());
        assert(d2.take(k - 1) =~= s2.take(k).drop_first());
        if k - 1 < d1.len() {
            assert(d1[k - 1] == s1[k]);
        }
        if k - 1 < d2.len() {
            assert(d2[k - 1] == s2[k]);
        }
        lemma_tokens_upto_stable(d1, d2, cursor, k - 1);
    }
}

/// What a region of the source holds.
#[derive(PartialEq, Eq, Structural, Clone, Copy, Debug)]
pub enum RegionCategory {
    DeclarativeRegion,
    SequentialStatements,
    ConcurrentStatements,
}

#[derive(PartialEq, Eq, Structural, Clone, Copy, Debug)]
pub enum SearchResult {
    NotFound,
}

/// Whether a walk of the design goes on.
#[derive(PartialEq, Eq, Structural, Clone, Copy, Debug)]
pub enum SearchState {
    NotFinished,
    Finished(SearchResult),
}

/// Identifies a source file.
pub type SourceId = usize;

/// `inner` lies within `outer`.
pub open spec fn nested_in(inner: Range, outer: Range) -> bool {
    pos_le(outer.start, inner.start) && pos_le(inner.end, outer.end)
}

/// The region kept after a region `region` of category `kind` is visited:
/// the first region that holds the cursor, then each one strictly nested in
/// the region kept.
pub open spec fn next_region(
    found: Option<(RegionCategory, Range)>,
    cursor: Position,
    region: Range,
    kind: RegionCategory,
) -> Option<(RegionCategory, Range)> {
    if region.spec_contains(cursor) {
        match found {
            Some((_, outer)) => if nested_in(region, outer) && region != outer {
                Some((kind, region))
            } else {
                found
            },
            None => Some((kind, region)),
        }
    } else {
        found
    }
}

/// Finds the most specific region of one source that holds the cursor: a
/// procedure declared in an architecture's declarations is a declarative
/// region, its statements sequential ones.
#[derive(Debug)]
pub struct RegionSearcher {
    pub region: Option<(RegionCategory, Range)>,
    pub cursor: Position,
    pub source: SourceId,
}

impl RegionSearcher {
    pub fn new(source: SourceId, cursor: Position) -> (r: RegionSearcher)
        ensures
            r.region is None,
            r.cursor == cursor,
            r.source == source,
    {
        RegionSearcher { region: None, cursor, source }
    }

    /// Keeps `region` where it holds the cursor and lies strictly within
    /// the region kept so far: a region whose range equals the one kept
    /// does not replace it.
    pub fn search_region(&mut self, region: Range, kind: RegionCategory) -> (r: SearchState)
        ensures
            r == SearchState::NotFinished,
            final(self).cursor == old(self).cursor,
            final(self).source == old(self).source,
            final(self).region == next_region(old(self).region, old(self).cursor, region, kind),
    {
        if region.contains(self.cursor) {
            match self.region {
                Some((_, old_region)) => {
                    // the new region is more specific than the one kept
                    if old_region.start.le(&region.start) && region.end.le(&old_region.end) && region
                        != old_region {
                        self.region = Some((kind, region));
                    }
                },
                None => {
                    self.region = Some((kind, region));
                },
            }
        }
        SearchState::NotFinished
    }

    /// Goes on into the source searched for, and skips any other.
    pub fn search_source(&self, source: SourceId) -> (r: SearchState)
        ensures
            r == if source == self.source {
                SearchState::NotFinished
            } else {
                SearchState::Finished(SearchResult::NotFound)
            },
    {
        if source == self.source {
            SearchState::NotFinished
        } else {
            SearchState::Finished(SearchResult::NotFound)
        }
    }
}

/// One step of a walk of the design: entering a source, or a region of it.
#[derive(PartialEq, Eq, Structural, Clone, Copy, Debug)]
pub enum Visit {
    Source(SourceId),
    Region(Range, RegionCategory),
}

/// The region found after `visits`, and whether the walk is inside the source searched for.
pub open spec fn locate(visits: Seq<Visit>, source: SourceId, cursor: Position) -> (Option<(RegionCategory, Range)>, bool)
    decreases visits.len(),
{
    if visits.len() == 0 {
        (None, false)
    } else {
        let (found, inside) = locate(visits.drop_last(), source, cursor);
        match visits.last() {
            Visit::Source(s) => (found, s == source),
            Visit::Region(r, k) => if inside {
                (next_region(found, cursor, r, k), inside)
            } else {
                (found, inside)
            },
        }
    }
}

/// The category and range of the most specific region of `source` that
/// holds the cursor, given the walk `visits` of the design; none where no
/// region of that source holds it.
pub fn region_at(visits: &Vec<Visit>, source: SourceId, cursor: Position) -> (r: Option<(RegionCategory, Range)>)
    ensures
        r == locate(visits@, source, cursor).0,
{
    let mut searcher = RegionSearcher::new(source, cursor);
    let mut inside = false;
    let mut i: usize = 0;
    while i < visits.len()
        invariant
            i <= visits@.len(),
            searcher.cursor == cursor,
            searcher.source == source,
            (searcher.region, inside) == locate(visits@.take(i as int), source, cursor),
        decreases visits@.len() - i,
    {
        assert(visits@.take(i + 1).drop_last() =~= visits@.take(i as int));
        match visits[i] {
            Visit::Source(s) => {
                inside = searcher.search_source(s) == SearchState::NotFinished;
            },
            Visit::Region(r, k) => {
                if inside {
                    searcher.search_region(r, k);
                }
            },
        }
        i += 1;
    }
    assert(visits@.take(i as int) =~= visits@);
    searcher.region
}

} // verus!

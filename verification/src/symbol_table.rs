//! Symbol tables: entries (symbols, and nested tables) by identifier, and the names of
//! named entries.
use vstd::prelude::*;

use crate::cfg::value::Value;
use crate::ids::{NIL_ID, SymbolID, fresh_id};
use crate::location::{Located, LocationRange};
use crate::ty::{FuncType, Type};

verus! {

#[derive(Debug, Clone, Copy, PartialEq, Eq, Structural)]
pub enum SymbolKind {
    Variable,
    Function,
}

#[derive(Debug, Clone, Copy, PartialEq, Eq, Structural, Hash)]
pub enum SymbolAttribute {
    Public,
}

/// A variable: its name (with where it is declared), type, and the value the control
/// flow graph gave it.
#[derive(Debug, Clone)]
pub struct VarSymbol {
    id: SymbolID,
    name: Located<String>,
    ty: Type,
    value: Option<Value>,
}

impl VarSymbol {
    pub closed spec fn spec_id(&self) -> SymbolID {
        self.id
    }

    pub closed spec fn spec_name(&self) -> Located<String> {
        self.name
    }

    pub closed spec fn spec_ty(&self) -> Type {
        self.ty
    }

    pub closed spec fn spec_value(&self) -> Option<Value> {
        self.value
    }

    pub fn new(name: Located<String>, ty: Type) -> (r: VarSymbol)
        ensures
            r.spec_id() == NIL_ID,
            r.spec_name() == name,
            r.spec_ty() == ty,
            r.spec_value() is None,
    {
        VarSymbol { id: NIL_ID, name, ty, value: None }
    }

    pub fn get_name(&self) -> (r: &str)
        ensures
            r@ == self.spec_name().0@,
    {
        self.name.0.as_str()
    }

    /// The variable with its identifier set to `id`.
    pub closed spec fn with_id(self, id: SymbolID) -> VarSymbol {
        VarSymbol { id, ..self }
    }

    fn set_id(&mut self, id: SymbolID)
        ensures
            *final(self) == old(self).with_id(id),
    {
        self.id = id;
    }

    pub fn get_id(&self) -> (r: SymbolID)
        ensures
            r == self.spec_id(),
    {
        self.id
    }

    pub fn get_type(&self) -> (r: Type)
        ensures
            r == self.spec_ty(),
    {
        self.ty
    }

    pub fn get_origin(&self) -> (r: LocationRange)
        ensures
            r == self.spec_name().1,
    {
        self.name.1
    }

    pub fn set_value(&mut self, value: Value)
        ensures
            final(self).spec_value() == Some(value),
            final(self).spec_id() == old(self).spec_id(),
            final(self).spec_name() == old(self).spec_name(),
            final(self).spec_ty() == old(self).spec_ty(),
    {
        self.value = Some(value);
    }

    pub fn get_value(&self) -> (r: Option<Value>)
        ensures
            r == self.spec_value(),
    {
        self.value
    }
}

/// A function: its name, parameters, return type and attributes (as a set).
#[derive(Debug, Clone)]
pub struct FuncSymbol {
    id: SymbolID,
    name: Located<String>,
    params: Vec<(Located<String>, Type)>,
    ret_ty: Type,
    attributes: Vec<SymbolAttribute>,
}

impl FuncSymbol {
    pub closed spec fn spec_id(&self) -> SymbolID {
        self.id
    }

    pub closed spec fn spec_name(&self) -> Located<String> {
        self.name
    }

    pub closed spec fn spec_params(&self) -> Seq<(Located<String>, Type)> {
        self.params@
    }

    pub closed spec fn spec_ret_ty(&self) -> Type {
        self.ret_ty
    }

    pub closed spec fn spec_attributes(&self) -> Set<SymbolAttribute> {
        self.attributes@.to_set()
    }

    pub fn new(name: Located<String>, params: Vec<(Located<String>, Type)>, ret_ty: Type) -> (r:
        FuncSymbol)
        ensures
            r.spec_id() == NIL_ID,
            r.spec_name() == name,
            r.spec_params() == params@,
            r.spec_ret_ty() == ret_ty,
            r.spec_attributes() == Set::<SymbolAttribute>::empty(),
    {
        let r = FuncSymbol { id: NIL_ID, name, params, ret_ty, attributes: Vec::new() };
        assert(r.attributes@.to_set() =~= Set::<SymbolAttribute>::empty());
        r
    }

    pub fn get_name(&self) -> (r: &str)
        ensures
            r@ == self.spec_name().0@,
    {
        self.name.0.as_str()
    }

    /// The function with its identifier set to `id`.
    pub closed spec fn with_id(self, id: SymbolID) -> FuncSymbol {
        FuncSymbol { id, ..self }
    }

    fn set_id(&mut self, id: SymbolID)
        ensures
            *final(self) == old(self).with_id(id),
    {
        self.id = id;
    }

    pub fn get_id(&self) -> (r: SymbolID)
        ensures
            r == self.spec_id(),
    {
        self.id
    }

    /// Adds the given attributes to the function's set of attributes.
    pub fn add_attributes(&mut self, attributes: Vec<SymbolAttribute>)
        ensures
            final(self).spec_attributes() == old(self).spec_attributes().union(
                attributes@.to_set(),
            ),
            final(self).spec_id() == old(self).spec_id(),
            final(self).spec_name() == old(self).spec_name(),
            final(self).spec_params() == old(self).spec_params(),
            final(self).spec_ret_ty() == old(self).spec_ret_ty(),
    {
        let mut i: usize = 0;
        while i < attributes.len()
            invariant
                i <= attributes@.len(),
                self.attributes@.to_set() == old(self).attributes@.to_set().union(
                    attributes@.subrange(0, i as int).to_set(),
                ),
                self.id == old(self).id,
                self.name == old(self).name,
                self.params == old(self).params,
                self.ret_ty == old(self).ret_ty,
            decreases attributes.len() - i,
        {
            let a = attributes[i];
            let mut present = false;
            let mut j: usize = 0;
            while j < self.attributes.len()
                invariant
                    j <= self.attributes@.len(),
                    present == (exists|k: int| 0 <= k < j && self.attributes@[k] == a),
                decreases self.attributes.len() - j,
            {
                if self.attributes[j] == a {
                    present = true;
                }
                j = j + 1;
            }
            let ghost before = self.attributes@;
            if !present {
                self.attributes.push(a);
            }
            proof {
                assert(attributes@.subrange(0, i + 1) =~= attributes@.subrange(0, i as int).push(
                    a,
                ));
                if present {
                    let k = choose|k: int| 0 <= k < before.len() && before[k] == a;
                    assert(before.to_set().contains(a));
                    assert(before.to_set() =~= before.to_set().insert(a));
                } else {
                    assert(before.push(a).to_set() =~= before.to_set().insert(a)) by {
                        assert forall|x: SymbolAttribute| #[trigger] before.push(a).contains(x)
                            <==> before.contains(x) || x == a by {
                            if before.push(a).contains(x) {
                                let k = choose|k: int|
                                    0 <= k < before.push(a).len() && before.push(a)[k] == x;
                                if k < before.len() {
                                    assert(before[k] == x);
                                }
                            }
                            if before.contains(x) {
                                let k = choose|k: int| 0 <= k < before.len() && before[k] == x;
                                assert(before.push(a)[k] == x);
                            }
                            if x == a {
                                assert(before.push(a)[before.len() as int] == a);
                            }
                        }
                    }
                }
                assert(attributes@.subrange(0, i as int).push(a).to_set() =~= attributes@.subrange(
                    0,
                    i as int,
                ).to_set().insert(a)) by {
                    let s = attributes@.subrange(0, i as int);
                    assert forall|x: SymbolAttribute| #[trigger] s.push(a).contains(x)
                        <==> s.contains(x) || x == a by {
                        if s.push(a).contains(x) {
                            let k = choose|k: int| 0 <= k < s.push(a).len() && s.push(a)[k] == x;
                            if k < s.len() {
                                assert(s[k] == x);
                            }
                        }
                        if s.contains(x) {
                            let k = choose|k: int| 0 <= k < s.len() && s[k] == x;
                            assert(s.push(a)[k] == x);
                        }
                        if x == a {
                            assert(s.push(a)[s.len() as int] == a);
                        }
                    }
                }
            }
            i = i + 1;
        }
        assert(attributes@.subrange(0, attributes@.len() as int) =~= attributes@);
    }

    pub fn get_params(&self) -> (r: &Vec<(Located<String>, Type)>)
        ensures
            r@ == self.spec_params(),
    {
        &self.params
    }

    pub fn get_return_type(&self) -> (r: Type)
        ensures
            r == self.spec_ret_ty(),
    {
        self.ret_ty
    }

    /// The function's type: the function type named by its identifier.
    pub fn get_type(&self) -> (r: Type)
        ensures
            r == Type::Function(FuncType(self.spec_id())),
    {
        Type::Function(FuncType(self.id))
    }

    pub fn get_origin(&self) -> (r: LocationRange)
        ensures
            r == self.spec_name().1,
    {
        self.name.1
    }
}

#[derive(Debug, Clone)]
pub enum Symbol {
    Variable(VarSymbol),
    Function(FuncSymbol),
}

impl Symbol {
    pub open spec fn spec_id(&self) -> SymbolID {
        match self {
            Symbol::Variable(s) => s.spec_id(),
            Symbol::Function(s) => s.spec_id(),
        }
    }

    pub open spec fn spec_name(&self) -> Located<String> {
        match self {
            Symbol::Variable(s) => s.spec_name(),
            Symbol::Function(s) => s.spec_name(),
        }
    }

    /// The type of a symbol: a variable's declared type, or a function's function type.
    pub open spec fn spec_type(&self) -> Type {
        match self {
            Symbol::Variable(s) => s.spec_ty(),
            Symbol::Function(s) => Type::Function(FuncType(s.spec_id())),
        }
    }

    pub fn get_name(&self) -> (r: &str)
        ensures
            r@ == self.spec_name().0@,
    {
        match self {
            Symbol::Variable(symbol) => symbol.get_name(),
            Symbol::Function(symbol) => symbol.get_name(),
        }
    }

    fn set_id(&mut self, id: SymbolID)
        ensures
            *final(self) == old(self).with_id(id),
    {
        match self {
            Symbol::Variable(symbol) => symbol.set_id(id),
            Symbol::Function(symbol) => symbol.set_id(id),
        }
    }

    pub fn get_id(&self) -> (r: SymbolID)
        ensures
            r == self.spec_id(),
    {
        match self {
            Symbol::Variable(symbol) => symbol.get_id(),
            Symbol::Function(symbol) => symbol.get_id(),
        }
    }

    pub fn get_type(&self) -> (r: Type)
        ensures
            r == self.spec_type(),
    {
        match self {
            Symbol::Variable(symbol) => symbol.get_type(),
            Symbol::Function(symbol) => symbol.get_type(),
        }
    }

    pub fn get_kind(&self) -> (r: SymbolKind)
        ensures
            r == (if *self is Variable {
                SymbolKind::Variable
            } else {
                SymbolKind::Function
            }),
    {
        match self {
            Symbol::Variable(_) => SymbolKind::Variable,
            Symbol::Function(_) => SymbolKind::Function,
        }
    }

    pub fn get_origin(&self) -> (r: LocationRange)
        ensures
            r == self.spec_name().1,
    {
        match self {
            Symbol::Variable(symbol) => symbol.get_origin(),
            Symbol::Function(symbol) => symbol.get_origin(),
        }
    }

    /// The symbol with its identifier set to `id`.
    pub closed spec fn with_id(self, id: SymbolID) -> Symbol {
        match self {
            Symbol::Variable(s) => Symbol::Variable(s.with_id(id)),
            Symbol::Function(s) => Symbol::Function(s.with_id(id)),
        }
    }

    /// Setting the identifier changes nothing else.
    pub proof fn lemma_with_id(self, id: SymbolID)
        ensures
            self.with_id(id).spec_id() == id,
            self.with_id(id).spec_name() == self.spec_name(),
            self is Variable <==> self.with_id(id) is Variable,
            self is Variable ==> self.with_id(id)->Variable_0.spec_ty()
                == self->Variable_0.spec_ty(),
            self is Function ==> self.with_id(id)->Function_0.spec_ret_ty()
                == self->Function_0.spec_ret_ty() && self.with_id(id)->Function_0.spec_params()
                == self->Function_0.spec_params(),
    {
    }
}

/// What a table holds under an identifier: a nested table or a symbol.
#[derive(Debug)]
pub enum SymbolTableEntry {
    Table(SymbolTable),
    Symbol(Symbol),
}

impl SymbolTableEntry {
    /// The entry with its identifier set to `id`.
    pub open spec fn with_id(self, id: SymbolID) -> SymbolTableEntry {
        match self {
            SymbolTableEntry::Table(t) => SymbolTableEntry::Table(t.with_id(id)),
            SymbolTableEntry::Symbol(s) => SymbolTableEntry::Symbol(s.with_id(id)),
        }
    }

    fn set_id(&mut self, id: SymbolID)
        ensures
            *final(self) == old(self).with_id(id),
    {
        match self {
            SymbolTableEntry::Table(table) => table.set_id(id),
            SymbolTableEntry::Symbol(symbol) => symbol.set_id(id),
        }
    }
}

#[derive(Debug)]
struct TaggedSymbolTableEntry {
    id: SymbolID,
    parent_id: SymbolID,
    entry: SymbolTableEntry,
}

/// The entries of a table by identifier; a later entry stands in for an earlier one.
spec fn tagged_map(s: Seq<TaggedSymbolTableEntry>) -> Map<SymbolID, TaggedSymbolTableEntry>
    decreases s.len(),
{
    if s.len() == 0 {
        Map::empty()
    } else {
        tagged_map(s.drop_last()).insert(s.last().id, s.last())
    }
}

/// The interned names of a table; a later name stands in for an earlier one.
spec fn name_map(s: Seq<(String, SymbolID)>) -> Map<Seq<char>, SymbolID>
    decreases s.len(),
{
    if s.len() == 0 {
        Map::empty()
    } else {
        name_map(s.drop_last()).insert(s.last().0@, s.last().1)
    }
}

proof fn lemma_tagged_map_push(s: Seq<TaggedSymbolTableEntry>, e: TaggedSymbolTableEntry)
    ensures
        tagged_map(s.push(e)) == tagged_map(s).insert(e.id, e),
{
    assert(s.push(e).drop_last() =~= s);
}

proof fn lemma_name_map_push(s: Seq<(String, SymbolID)>, e: (String, SymbolID))
    ensures
        name_map(s.push(e)) == name_map(s).insert(e.0@, e.1),
{
    assert(s.push(e).drop_last() =~= s);
}

/// Replacing the last entry with some identifier replaces what the map holds for it.
proof fn lemma_tagged_map_update(s: Seq<TaggedSymbolTableEntry>, i: int, e: TaggedSymbolTableEntry)
    requires
        0 <= i < s.len(),
        e.id == s[i].id,
        forall|j: int| i < j < s.len() ==> s[j].id != s[i].id,
    ensures
        tagged_map(s.update(i, e)) == tagged_map(s).insert(e.id, e),
    decreases s.len(),
{
    if i == s.len() - 1 {
        assert(s.update(i, e).drop_last() =~= s.drop_last());
        assert(tagged_map(s.update(i, e)) =~= tagged_map(s).insert(e.id, e));
    } else {
        lemma_tagged_map_update(s.drop_last(), i, e);
        assert(s.update(i, e).drop_last() =~= s.drop_last().update(i, e));
        assert(tagged_map(s.update(i, e)) =~= tagged_map(s).insert(e.id, e));
    }
}

/// The last position holding identifier `id`, if any.
fn find_entry(s: &Vec<TaggedSymbolTableEntry>, id: SymbolID) -> (r: Option<usize>)
    ensures
        r is None <==> !tagged_map(s@).contains_key(id),
        r matches Some(i) ==> i < s@.len() && s@[i as int].id == id && tagged_map(s@)[id] == s@[i as int]
            && forall|j: int| i < j < s@.len() ==> s@[j].id != id,
{
    let mut i = s.len();
    proof {
        assert(s@.subrange(0, s@.len() as int) =~= s@);
    }
    while i > 0
        invariant
            i <= s@.len(),
            forall|j: int| i <= j < s@.len() ==> s@[j].id != id,
            tagged_map(s@).contains_key(id) == tagged_map(s@.subrange(0, i as int)).contains_key(
                id,
            ),
            tagged_map(s@).contains_key(id) ==> tagged_map(s@)[id] == tagged_map(
                s@.subrange(0, i as int),
            )[id],
        decreases i,
    {
        proof {
            let sub = s@.subrange(0, i as int);
            assert(sub.drop_last() =~= s@.subrange(0, i - 1));
            assert(sub.last() == s@[i - 1]);
        }
        if s[i - 1].id == id {
            return Some(i - 1);
        }
        i = i - 1;
    }
    proof {
        assert(s@.subrange(0, 0) =~= Seq::<TaggedSymbolTableEntry>::empty());
    }
    None
}

/// The identifier interned for `name`, if any.
fn find_name(s: &Vec<(String, SymbolID)>, name: &String) -> (r: Option<SymbolID>)
    ensures
        r is None <==> !name_map(s@).contains_key(name@),
        r matches Some(id) ==> name_map(s@)[name@] == id,
{
    let mut i = s.len();
    proof {
        assert(s@.subrange(0, s@.len() as int) =~= s@);
    }
    while i > 0
        invariant
            i <= s@.len(),
            name_map(s@).contains_key(name@) == name_map(s@.subrange(0, i as int)).contains_key(
                name@,
            ),
            name_map(s@).contains_key(name@) ==> name_map(s@)[name@] == name_map(
                s@.subrange(0, i as int),
            )[name@],
        decreases i,
    {
        proof {
            let sub = s@.subrange(0, i as int);
            assert(sub.drop_last() =~= s@.subrange(0, i - 1));
            assert(sub.last() == s@[i - 1]);
        }
        if s[i - 1].0 == *name {
            return Some(s[i - 1].1);
        }
        i = i - 1;
    }
    proof {
        assert(s@.subrange(0, 0) =~= Seq::<(String, SymbolID)>::empty());
    }
    None
}

/// A table: entries by identifier, each with the identifier of its parent table, and the
/// names of its named entries.
#[derive(Debug)]
pub struct SymbolTable {
    id: SymbolID,
    interned_id: Vec<(String, SymbolID)>,
    entries: Vec<TaggedSymbolTableEntry>,
}

impl SymbolTable {
    pub closed spec fn spec_id(&self) -> SymbolID {
        self.id
    }

    /// The table with its identifier set to `id`.
    pub closed spec fn with_id(self, id: SymbolID) -> SymbolTable {
        SymbolTable { id, ..self }
    }

    /// Setting the identifier of a table changes nothing it holds.
    pub proof fn lemma_with_id(self, id: SymbolID)
        ensures
            self.with_id(id).spec_id() == id,
            self.with_id(id).ids() == self.ids(),
            self.with_id(id).names() == self.names(),
            self.with_id(id).wf() == self.wf(),
            forall|k: SymbolID| #[trigger]
                self.with_id(id).entry(k) == self.entry(k) && self.with_id(id).parent(k)
                    == self.parent(k),
    {
        assert(self.with_id(id).ids() == self.ids());
        assert(self.with_id(id).names() == self.names());
    }

    /// The identifiers of the entries.
    pub closed spec fn ids(&self) -> Set<SymbolID> {
        tagged_map(self.entries@).dom()
    }

    /// The entry under identifier `id`.
    pub closed spec fn entry(&self, id: SymbolID) -> SymbolTableEntry {
        tagged_map(self.entries@)[id].entry
    }

    /// The identifier of the parent of the entry under `id`.
    pub closed spec fn parent(&self, id: SymbolID) -> SymbolID {
        tagged_map(self.entries@)[id].parent_id
    }

    /// The interned names and their identifiers.
    pub closed spec fn names(&self) -> Map<Seq<char>, SymbolID> {
        name_map(self.interned_id@)
    }

    /// The nil identifier names no entry; every interned name names an entry.
    pub closed spec fn wf(&self) -> bool {
        &&& !self.ids().contains(NIL_ID)
        &&& forall|n: Seq<char>| #[trigger]
            self.names().contains_key(n) ==> self.ids().contains(self.names()[n])
    }

    /// What a well-formed table promises: no entry under the nil identifier, and an entry
    /// under every interned name.
    pub proof fn lemma_wf(&self)
        requires
            self.wf(),
        ensures
            !self.ids().contains(NIL_ID),
            forall|n: Seq<char>| #[trigger]
                self.names().contains_key(n) ==> self.ids().contains(self.names()[n]),
    {
    }

    /// The table holds what `old` held, and one entry more under `id`.
    pub open spec fn added(old: SymbolTable, new: SymbolTable, id: SymbolID, parent_id: SymbolID, entry: SymbolTableEntry) -> bool {
        &&& new.wf()
        &&& new.spec_id() == old.spec_id()
        &&& id != NIL_ID
        &&& !old.ids().contains(id)
        &&& new.ids() == old.ids().insert(id)
        &&& new.entry(id) == entry.with_id(id)
        &&& new.parent(id) == parent_id
        &&& forall|k: SymbolID| #[trigger]
            old.ids().contains(k) ==> new.entry(k) == old.entry(k) && new.parent(k) == old.parent(k)
    }

    /// An empty table with the nil identifier.
    pub fn new() -> (r: SymbolTable)
        ensures
            r.wf(),
            r.spec_id() == NIL_ID,
            r.ids() == Set::<SymbolID>::empty(),
            r.names() == Map::<Seq<char>, SymbolID>::empty(),
    {
        let r = SymbolTable { id: NIL_ID, interned_id: Vec::new(), entries: Vec::new() };
        assert(r.ids() =~= Set::<SymbolID>::empty());
        r
    }

    fn used_ids(&self) -> (r: Vec<u128>)
        ensures
            forall|k: SymbolID| self.ids().contains(k) ==> r@.contains(k),
    {
        let mut v: Vec<u128> = Vec::new();
        let mut i: usize = 0;
        while i < self.entries.len()
            invariant
                i <= self.entries@.len(),
                v@.len() == i,
                forall|j: int| 0 <= j < i ==> v@[j] == self.entries@[j].id,
            decreases self.entries.len() - i,
        {
            v.push(self.entries[i].id);
            i = i + 1;
        }
        proof {
            assert forall|k: SymbolID| self.ids().contains(k) implies v@.contains(k) by {
                lemma_tagged_map_ids(self.entries@, k);
                let j = choose|j: int| 0 <= j < self.entries@.len() && self.entries@[j].id == k;
                assert(v@[j] == k);
            }
        }
        v
    }

    /// Adds an entry under a new identifier (which it returns), as a child of `parent_id`.
    pub fn new_entry(&mut self, parent_id: SymbolID, entry: SymbolTableEntry) -> (r: SymbolID)
        requires
            old(self).wf(),
        ensures
            SymbolTable::added(*old(self), *final(self), r, parent_id, entry),
            final(self).names() == old(self).names(),
    {
        let used = self.used_ids();
        let id = fresh_id(&used);
        let mut entry = entry;
        entry.set_id(id);
        let ghost before = self.entries@;
        let tagged = TaggedSymbolTableEntry { id, parent_id, entry };
        self.entries.push(tagged);
        proof {
            lemma_tagged_map_push(before, tagged);
            assert(self.ids() =~= old(self).ids().insert(id));
            assert forall|n: Seq<char>| #[trigger] self.names().contains_key(n) implies self.ids().contains(self.names()[n]) by {
                assert(old(self).names().contains_key(n));
            }
        }
        id
    }

    /// Adds an entry named `name` under a new identifier, unless the name is taken; then
    /// nothing changes and the result is `None`.
    pub fn new_named_entry(&mut self, parent_id: SymbolID, name: &str, entry: SymbolTableEntry) -> (r:
        Option<SymbolID>)
        requires
            old(self).wf(),
        ensures
            old(self).names().contains_key(name@) ==> r is None && *final(self) == *old(self),
            !old(self).names().contains_key(name@) ==> (r matches Some(id) && SymbolTable::added(
                *old(self),
                *final(self),
                id,
                parent_id,
                entry,
            ) && final(self).names() == old(self).names().insert(name@, id)),
    {
        if self.name_exists(name) {
            return None;
        }
        let used = self.used_ids();
        let id = fresh_id(&used);
        let ghost names_before = self.interned_id@;
        let pair = (name.to_owned(), id);
        self.interned_id.push(pair);
        proof {
            lemma_name_map_push(names_before, pair);
        }
        let mut entry = entry;
        entry.set_id(id);
        let ghost before = self.entries@;
        let tagged = TaggedSymbolTableEntry { id, parent_id, entry };
        self.entries.push(tagged);
        proof {
            lemma_tagged_map_push(before, tagged);
            assert(self.ids() =~= old(self).ids().insert(id));
            assert forall|n: Seq<char>| #[trigger] self.names().contains_key(n) implies self.ids().contains(self.names()[n]) by {
                if n != name@ || !self.names().contains_key(n) {
                    assert(old(self).names().contains_key(n));
                }
            }
        }
        Some(id)
    }

    pub fn get_entry(&self, id: SymbolID) -> (r: Option<&SymbolTableEntry>)
        ensures
            r is Some <==> self.ids().contains(id),
            r matches Some(e) ==> *e == self.entry(id),
    {
        match find_entry(&self.entries, id) {
            Some(i) => Some(&self.entries[i].entry),
            None => None,
        }
    }

    pub fn get_entry_parent_id(&self, id: SymbolID) -> (r: Option<SymbolID>)
        ensures
            r is Some <==> self.ids().contains(id),
            r matches Some(p) ==> p == self.parent(id),
    {
        match find_entry(&self.entries, id) {
            Some(i) => Some(self.entries[i].parent_id),
            None => None,
        }
    }

    /// The nested table under `id`, if that entry is a table.
    pub fn get_table(&self, id: SymbolID) -> (r: Option<&SymbolTable>)
        ensures
            r is Some <==> self.ids().contains(id) && self.entry(id) is Table,
            r matches Some(t) ==> self.entry(id) == SymbolTableEntry::Table(*t),
    {
        match self.get_entry(id) {
            Some(SymbolTableEntry::Table(table)) => Some(table),
            _ => None,
        }
    }

    /// The symbol under `id`, if that entry is a symbol.
    pub fn get_symbol(&self, id: SymbolID) -> (r: Option<&Symbol>)
        ensures
            r is Some <==> self.ids().contains(id) && self.entry(id) is Symbol,
            r matches Some(s) ==> self.entry(id) == SymbolTableEntry::Symbol(*s),
    {
        match self.get_entry(id) {
            Some(SymbolTableEntry::Symbol(symbol)) => Some(symbol),
            _ => None,
        }
    }

    /// The symbol named `name`.
    pub fn get_symbol_by_name(&self, name: &str) -> (r: Option<&Symbol>)
        requires
            self.wf(),
        ensures
            r is Some <==> self.names().contains_key(name@) && self.entry(self.names()[name@]) is Symbol,
            r matches Some(s) ==> self.entry(self.names()[name@]) == SymbolTableEntry::Symbol(*s),
    {
        match self.get_symbol_id_by_name(name) {
            Some(id) => self.get_symbol(id),
            None => None,
        }
    }

    pub fn has_entry(&self, id: SymbolID) -> (r: bool)
        ensures
            r == self.ids().contains(id),
    {
        find_entry(&self.entries, id).is_some()
    }

    pub fn name_exists(&self, name: &str) -> (r: bool)
        ensures
            r == self.names().contains_key(name@),
    {
        let n = name.to_owned();
        find_name(&self.interned_id, &n).is_some()
    }

    pub fn get_symbol_id_by_name(&self, name: &str) -> (r: Option<SymbolID>)
        ensures
            r is Some <==> self.names().contains_key(name@),
            r matches Some(id) ==> id == self.names()[name@],
    {
        let n = name.to_owned();
        find_name(&self.interned_id, &n)
    }

    fn set_id(&mut self, id: SymbolID)
        ensures
            *final(self) == old(self).with_id(id),
    {
        self.id = id;
    }

    /// Adds an entry named `name` to the nested table under `table_id` (see
    /// `new_named_entry`). `None` when there is no such table or the name is taken there.
    pub fn new_named_entry_in(
        &mut self,
        table_id: SymbolID,
        parent_id: SymbolID,
        name: &str,
        entry: SymbolTableEntry,
    ) -> (r: Option<SymbolID>)
        requires
            old(self).wf(),
            old(self).ids().contains(table_id) && old(self).entry(table_id) is Table ==> old(self).entry(table_id)->Table_0.wf(),
        ensures
            final(self).wf(),
            final(self).ids() == old(self).ids(),
            final(self).names() == old(self).names(),
            final(self).spec_id() == old(self).spec_id(),
            forall|k: SymbolID| #[trigger]
                old(self).ids().contains(k) && k != table_id ==> final(self).entry(k) == old(self).entry(k),
            forall|k: SymbolID| #[trigger]
                old(self).ids().contains(k) ==> final(self).parent(k) == old(self).parent(k),
            !(old(self).ids().contains(table_id) && old(self).entry(table_id) is Table) ==> r is None
                && *final(self) == *old(self),
            old(self).ids().contains(table_id) && old(self).entry(table_id) is Table ==> ({
                let t0 = old(self).entry(table_id)->Table_0;
                &&& final(self).entry(table_id) is Table
                &&& final(self).entry(table_id)->Table_0.wf()
                &&& t0.names().contains_key(name@) ==> r is None && final(self).entry(table_id)
                    == old(self).entry(table_id)
                &&& !t0.names().contains_key(name@) ==> (r matches Some(id) && SymbolTable::added(
                    t0,
                    final(self).entry(table_id)->Table_0,
                    id,
                    parent_id,
                    entry,
                ) && final(self).entry(table_id)->Table_0.names() == t0.names().insert(name@, id))
            }),
    {
        let i = match find_entry(&self.entries, table_id) {
            Some(i) => i,
            None => {
                return None;
            },
        };
        let free = match &self.entries[i].entry {
            SymbolTableEntry::Table(t) => !t.name_exists(name),
            _ => false,
        };
        if !free {
            return None;
        }
        let ghost before = self.entries@;
        let tagged = self.entries.remove(i);
        let TaggedSymbolTableEntry { id, parent_id: p, entry: inner } = tagged;
        let (r, new_inner) = match inner {
            SymbolTableEntry::Table(mut t) => {
                let r = t.new_named_entry(parent_id, name, entry);
                (r, SymbolTableEntry::Table(t))
            },
            other => (None, other),
        };
        let new_tagged = TaggedSymbolTableEntry { id, parent_id: p, entry: new_inner };
        self.entries.insert(i, new_tagged);
        proof {
            assert(self.entries@ =~= before.update(i as int, new_tagged));
            lemma_tagged_map_update(before, i as int, new_tagged);
            assert(self.ids() =~= old(self).ids());
            assert forall|n: Seq<char>| #[trigger] self.names().contains_key(n) implies self.ids().contains(self.names()[n]) by {
                assert(old(self).names().contains_key(n));
            }
            if r is None {
                assert(new_tagged == before[i as int]);
            }
        }
        r
    }

    /// Sets the value of the variable under `var_id` in the nested table under `table_id`,
    /// or, when `table_id` is `NIL_ID`, in this table. `false` (and no change) when there is
    /// no such variable.
    pub fn set_var_value(&mut self, table_id: SymbolID, var_id: SymbolID, value: Value) -> (r: bool)
        requires
            old(self).wf(),
        ensures
            final(self).wf(),
            final(self).ids() == old(self).ids(),
            final(self).names() == old(self).names(),
            final(self).spec_id() == old(self).spec_id(),
            !r ==> *final(self) == *old(self),
            table_id == NIL_ID ==> (r <==> old(self).ids().contains(var_id) && old(self).entry(
                var_id,
            ) is Symbol && old(self).entry(var_id)->Symbol_0 is Variable),
            r && table_id == NIL_ID ==> (final(self).entry(var_id) matches SymbolTableEntry::Symbol(
                Symbol::Variable(v),
            ) && v.spec_value() == Some(value) && v.spec_id() == old(self).entry(
                var_id,
            )->Symbol_0->Variable_0.spec_id() && v.spec_ty() == old(self).entry(
                var_id,
            )->Symbol_0->Variable_0.spec_ty()),
            table_id != NIL_ID ==> (r <==> old(self).ids().contains(table_id) && old(self).entry(
                table_id,
            ) is Table && old(self).entry(table_id)->Table_0.has_var_spec(var_id)),
            r && table_id != NIL_ID ==> (final(self).entry(table_id) is Table && (old(self).entry(
                table_id,
            )->Table_0.wf() ==> final(self).entry(table_id)->Table_0.wf()) && final(self).entry(table_id)->Table_0.ids() == old(self).entry(
                table_id,
            )->Table_0.ids() && final(self).entry(table_id)->Table_0.names() == old(self).entry(
                table_id,
            )->Table_0.names() && (final(self).entry(table_id)->Table_0.entry(var_id) matches SymbolTableEntry::Symbol(Symbol::Variable(v))
                && v.spec_value() == Some(value) && v.spec_ty() == old(self).entry(
                table_id,
            )->Table_0.entry(var_id)->Symbol_0->Variable_0.spec_ty())),
            forall|k: SymbolID| #[trigger]
                old(self).ids().contains(k) && k != var_id && k != table_id ==> final(self).entry(k)
                    == old(self).entry(k),
        decreases 1nat,
    {
        if table_id == NIL_ID {
            return self.set_var_value_here(var_id, value);
        }
        let i = match find_entry(&self.entries, table_id) {
            Some(i) => i,
            None => {
                return false;
            },
        };
        let present = match &self.entries[i].entry {
            SymbolTableEntry::Table(t) => t.has_var(var_id),
            _ => false,
        };
        if !present {
            return false;
        }
        let ghost before = self.entries@;
        let tagged = self.entries.remove(i);
        let TaggedSymbolTableEntry { id, parent_id: p, entry: inner } = tagged;
        let (r, new_inner) = match inner {
            SymbolTableEntry::Table(mut t) => {
                let r = t.set_var_value_here(var_id, value);
                (r, SymbolTableEntry::Table(t))
            },
            other => (false, other),
        };
        let new_tagged = TaggedSymbolTableEntry { id, parent_id: p, entry: new_inner };
        self.entries.insert(i, new_tagged);
        proof {
            assert(self.entries@ =~= before.update(i as int, new_tagged));
            lemma_tagged_map_update(before, i as int, new_tagged);
            assert(self.ids() =~= old(self).ids());
            assert forall|n: Seq<char>| #[trigger] self.names().contains_key(n) implies self.ids().contains(self.names()[n]) by {
                assert(old(self).names().contains_key(n));
            }
        }
        r
    }

    /// Sets the value of the variable under `var_id` in this table.
    fn set_var_value_here(&mut self, var_id: SymbolID, value: Value) -> (r: bool)
        ensures
            old(self).wf() ==> final(self).wf(),
            final(self).ids() == old(self).ids(),
            final(self).names() == old(self).names(),
            final(self).spec_id() == old(self).spec_id(),
            !r ==> *final(self) == *old(self),
            r <==> old(self).ids().contains(var_id) && old(self).entry(var_id) is Symbol && old(self).entry(var_id)->Symbol_0 is Variable,
            r ==> (final(self).entry(var_id) matches SymbolTableEntry::Symbol(Symbol::Variable(v))
                && v.spec_value() == Some(value) && v.spec_id() == old(self).entry(
                var_id,
            )->Symbol_0->Variable_0.spec_id() && v.spec_ty() == old(self).entry(
                var_id,
            )->Symbol_0->Variable_0.spec_ty()),
            forall|k: SymbolID| #[trigger]
                old(self).ids().contains(k) && k != var_id ==> final(self).entry(k) == old(self).entry(k),
    {
        let i = match find_entry(&self.entries, var_id) {
            Some(i) => i,
            None => {
                return false;
            },
        };
        let is_var = match &self.entries[i].entry {
            SymbolTableEntry::Symbol(Symbol::Variable(_)) => true,
            _ => false,
        };
        if !is_var {
            return false;
        }
        let ghost before = self.entries@;
        let tagged = self.entries.remove(i);
        let TaggedSymbolTableEntry { id, parent_id: p, entry: inner } = tagged;
        let (r, new_inner) = match inner {
            SymbolTableEntry::Symbol(Symbol::Variable(mut v)) => {
                v.set_value(value);
                (true, SymbolTableEntry::Symbol(Symbol::Variable(v)))
            },
            other => (false, other),
        };
        let new_tagged = TaggedSymbolTableEntry { id, parent_id: p, entry: new_inner };
        self.entries.insert(i, new_tagged);
        proof {
            assert(self.entries@ =~= before.update(i as int, new_tagged));
            lemma_tagged_map_update(before, i as int, new_tagged);
            assert(self.ids() =~= old(self).ids());
            if old(self).wf() {
                assert forall|n: Seq<char>| #[trigger] self.names().contains_key(n) implies self.ids().contains(self.names()[n]) by {
                    assert(old(self).names().contains_key(n));
                }
            }
        }
        r
    }

    pub open spec fn has_var_spec(&self, id: SymbolID) -> bool {
        self.ids().contains(id) && self.entry(id) is Symbol && self.entry(id)->Symbol_0 is Variable
    }

    /// Whether the entry under `id` is a variable.
    pub fn has_var(&self, id: SymbolID) -> (r: bool)
        ensures
            r == self.has_var_spec(id),
    {
        match self.get_entry(id) {
            Some(SymbolTableEntry::Symbol(Symbol::Variable(_))) => true,
            _ => false,
        }
    }
}

/// Every identifier of the map is that of some entry.
proof fn lemma_tagged_map_ids(s: Seq<TaggedSymbolTableEntry>, k: SymbolID)
    requires
        tagged_map(s).contains_key(k),
    ensures
        exists|j: int| 0 <= j < s.len() && s[j].id == k,
    decreases s.len(),
{
    if s.last().id == k {
        assert(s[s.len() - 1].id == k);
    } else {
        lemma_tagged_map_ids(s.drop_last(), k);
        let j = choose|j: int| 0 <= j < s.drop_last().len() && s.drop_last()[j].id == k;
        assert(s[j].id == k);
    }
}

/// A name interned in a table names the symbol entered under it: what a named entry
/// writes, a lookup by that name reads back.
pub proof fn lemma_named_entry_read_back(
    old_table: SymbolTable,
    new_table: SymbolTable,
    name: Seq<char>,
    id: SymbolID,
    parent_id: SymbolID,
    entry: SymbolTableEntry,
)
    requires
        SymbolTable::added(old_table, new_table, id, parent_id, entry),
        new_table.names() == old_table.names().insert(name, id),
    ensures
        new_table.names().contains_key(name),
        new_table.names()[name] == id,
        new_table.ids().contains(id),
        new_table.entry(new_table.names()[name]) == entry.with_id(id),
        forall|n: Seq<char>|
            n != name && old_table.names().contains_key(n) ==> #[trigger] new_table.names()[n]
                == old_table.names()[n],
{
}


/// The symbol that `id` names from inside the local tables `locals` (the last is the
/// innermost): the first of them, from the innermost, that holds `id` as a symbol, else
/// the global table.
pub open spec fn visible_symbol(locals: Seq<SymbolID>, table: SymbolTable, id: SymbolID) -> Option<
    Symbol,
>
    decreases locals.len(),
{
    if locals.len() == 0 {
        if table.ids().contains(id) && table.entry(id) is Symbol {
            Some(table.entry(id)->Symbol_0)
        } else {
            None
        }
    } else {
        let l = locals.last();
        if table.ids().contains(l) && table.entry(l) is Table && table.entry(l)->Table_0.ids().contains(
            id,
        ) && table.entry(l)->Table_0.entry(id) is Symbol {
            Some(table.entry(l)->Table_0.entry(id)->Symbol_0)
        } else {
            visible_symbol(locals.drop_last(), table, id)
        }
    }
}

} // verus!

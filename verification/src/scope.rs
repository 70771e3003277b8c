use vstd::prelude::*;
use crate::token::{bytes_eq, copy_bytes, matches_word};

verus! {

/// The closed set of primitive types an expression can resolve to. There are
/// no user-defined types; `Function` marks a declared function's name and
/// `Nil` is the type of nothing.
#[derive(Clone, Copy, Debug, PartialEq, Eq, Structural)]
pub enum Type {
    Integer,
    Float,
    Str,
    Boolean,
    Function,
    Nil,
}

/// The bytes of the type name `int`.
pub open spec fn ty_int() -> Seq<u8> {
    seq![105u8, 110u8, 116u8]
}

/// The bytes of the type name `float`.
pub open spec fn ty_float() -> Seq<u8> {
    seq![102u8, 108u8, 111u8, 97u8, 116u8]
}

/// The bytes of the type name `string`.
pub open spec fn ty_string() -> Seq<u8> {
    seq![115u8, 116u8, 114u8, 105u8, 110u8, 103u8]
}

/// The bytes of the type name `bool`.
pub open spec fn ty_bool() -> Seq<u8> {
    seq![98u8, 111u8, 111u8, 108u8]
}

/// Which primitive type an identifier names, if any.
pub open spec fn primitive_of(id: Seq<u8>) -> Option<Type> {
    if id == ty_int() {
        Option::Some(Type::Integer)
    } else if id == ty_float() {
        Option::Some(Type::Float)
    } else if id == ty_string() {
        Option::Some(Type::Str)
    } else if id == ty_bool() {
        Option::Some(Type::Boolean)
    } else {
        Option::None
    }
}

impl Type {
    /// Maps a type-annotation identifier to the primitive type it names.
    pub fn get_primitive_from_ident(id: &Vec<u8>) -> (r: Option<Type>)
        ensures
            r == primitive_of(id@),
    {
        if matches_word(id, Ghost(ty_int()), 105, &[110, 116]) {
            Option::Some(Type::Integer)
        } else if matches_word(id, Ghost(ty_float()), 102, &[108, 111, 97, 116]) {
            Option::Some(Type::Float)
        } else if matches_word(id, Ghost(ty_string()), 115, &[116, 114, 105, 110, 103]) {
            Option::Some(Type::Str)
        } else if matches_word(id, Ghost(ty_bool()), 98, &[111, 111, 108]) {
            Option::Some(Type::Boolean)
        } else {
            Option::None
        }
    }
}

/// A declared name's resolved type plus its mutability.
#[derive(Clone, Copy, Debug, PartialEq, Eq, Structural)]
pub struct Symbol {
    pub typ: Type,
    pub mutable: bool,
}

/// One level of scope: a mapping from name to symbol. A later entry for the
/// same name shadows an earlier one, so storing is plain insertion.
pub struct Scope {
    items: Vec<(Vec<u8>, Symbol)>,
}

/// The mapping a row of scope entries denotes: later entries win.
pub open spec fn scope_map(items: Seq<(Vec<u8>, Symbol)>) -> Map<Seq<u8>, Symbol>
    decreases items.len(),
{
    if items.len() == 0 {
        Map::empty()
    } else {
        scope_map(items.drop_last()).insert(items.last().0@, items.last().1)
    }
}

/// Association-list lookup, newest entry first.
pub open spec fn assoc(items: Seq<(Vec<u8>, Symbol)>, id: Seq<u8>) -> Option<Symbol>
    decreases items.len(),
{
    if items.len() == 0 {
        Option::None
    } else if items.last().0@ == id {
        Option::Some(items.last().1)
    } else {
        assoc(items.drop_last(), id)
    }
}

/// Newest-first lookup finds exactly what the map view holds.
pub proof fn lemma_assoc_is_map(items: Seq<(Vec<u8>, Symbol)>, id: Seq<u8>)
    ensures
        assoc(items, id) == (if scope_map(items).contains_key(id) {
            Option::Some(scope_map(items)[id])
        } else {
            Option::<Symbol>::None
        }),
    decreases items.len(),
{
    if items.len() > 0 {
        lemma_assoc_is_map(items.drop_last(), id);
    }
}

impl View for Scope {
    type V = Map<Seq<u8>, Symbol>;

    closed spec fn view(&self) -> Map<Seq<u8>, Symbol> {
        scope_map(self.items@)
    }
}

impl Scope {
    /// A brand new scope with nothing in it.
    pub fn empty() -> (s: Scope)
        ensures
            s@ == Map::<Seq<u8>, Symbol>::empty(),
    {
        Scope { items: Vec::new() }
    }

    /// Stores a symbol under `id`, shadowing any earlier entry for the same
    /// name in this scope.
    pub fn store(&mut self, id: &Vec<u8>, sym: Symbol)
        ensures
            final(self)@ == old(self)@.insert(id@, sym),
    {
        let key = copy_bytes(id);
        self.items.push((key, sym));
        proof {
            assert(self.items@.drop_last() =~= old(self).items@);
        }
    }

    /// Looks for a name in this scope and this scope only.
    pub fn lookup(&self, id: &Vec<u8>) -> (r: Option<Symbol>)
        ensures
            r == (if self@.contains_key(id@) {
                Option::Some(self@[id@])
            } else {
                Option::<Symbol>::None
            }),
    {
        proof {
            lemma_assoc_is_map(self.items@, id@);
        }
        let mut i: usize = self.items.len();
        proof {
            assert(self.items@.subrange(0, self.items@.len() as int) =~= self.items@);
        }
        while i > 0
            invariant
                i <= self.items@.len(),
                assoc(self.items@, id@) == assoc(self.items@.subrange(0, i as int), id@),
            decreases i,
        {
            let entry = &self.items[i - 1];
            if bytes_eq(&entry.0, id) {
                proof {
                    let pre = self.items@.subrange(0, i as int);
                    assert(pre.last() == self.items@[i - 1]);
                }
                return Option::Some(entry.1);
            }
            proof {
                let pre = self.items@.subrange(0, i as int);
                assert(pre.drop_last() =~= self.items@.subrange(0, i - 1));
            }
            i = i - 1;
        }
        proof {
            assert(self.items@.subrange(0, 0) =~= Seq::<(Vec<u8>, Symbol)>::empty());
        }
        Option::None
    }
}

/// The scope stack: lexical nesting, innermost scope last. Lookup scans
/// innermost to outermost and the first hit wins, which is what makes
/// shadowing work.
pub struct SymbolTable {
    scopes: Vec<Scope>,
}

/// Innermost-first lookup over a stack of scope maps.
pub open spec fn stack_lookup(ss: Seq<Map<Seq<u8>, Symbol>>, id: Seq<u8>) -> Option<Symbol>
    decreases ss.len(),
{
    if ss.len() == 0 {
        Option::None
    } else if ss.last().contains_key(id) {
        Option::Some(ss.last()[id])
    } else {
        stack_lookup(ss.drop_last(), id)
    }
}

impl View for SymbolTable {
    type V = Seq<Map<Seq<u8>, Symbol>>;

    closed spec fn view(&self) -> Seq<Map<Seq<u8>, Symbol>> {
        self.scopes@.map_values(|s: Scope| s@)
    }
}

impl SymbolTable {
    /// The global scope is always there and is never popped.
    pub open spec fn wf(&self) -> bool {
        self@.len() >= 1
    }

    /// A symbol table holding only the empty global scope.
    pub fn new() -> (t: SymbolTable)
        ensures
            t@ =~= seq![Map::<Seq<u8>, Symbol>::empty()],
            t.wf(),
    {
        let mut scopes: Vec<Scope> = Vec::new();
        scopes.push(Scope::empty());
        let t = SymbolTable { scopes };
        proof {
            assert(t@ =~= seq![Map::<Seq<u8>, Symbol>::empty()]);
        }
        t
    }

    /// Bundles a type and a mutability flag into a symbol.
    pub fn sym(typ: Type, mutable: bool) -> (s: Symbol)
        ensures
            s == (Symbol { typ, mutable }),
    {
        Symbol { typ, mutable }
    }

    /// Stores a symbol in the innermost scope.
    pub fn store_local(&mut self, id: &Vec<u8>, sym: Symbol)
        requires
            old(self).wf(),
        ensures
            final(self).wf(),
            final(self)@ =~= old(self)@.update(
                old(self)@.len() - 1,
                old(self)@.last().insert(id@, sym),
            ),
    {
        let n = self.scopes.len();
        let mut top = self.scopes.pop().unwrap();
        top.store(id, sym);
        self.scopes.push(top);
        proof {
            assert(final(self)@ =~= old(self)@.update(
                old(self)@.len() - 1,
                old(self)@.last().insert(id@, sym),
            ));
        }
    }

    /// Steps one level into lexical scope.
    pub fn step_into(&mut self)
        ensures
            final(self)@ =~= old(self)@.push(Map::<Seq<u8>, Symbol>::empty()),
            final(self).wf(),
    {
        self.scopes.push(Scope::empty());
        proof {
            assert(final(self)@ =~= old(self)@.push(Map::<Seq<u8>, Symbol>::empty()));
        }
    }

    /// Steps one level out of lexical scope; the global scope stays.
    pub fn step_out(&mut self)
        requires
            old(self)@.len() >= 2,
        ensures
            final(self)@ =~= old(self)@.drop_last(),
            final(self).wf(),
    {
        let _ = self.scopes.pop();
        proof {
            assert(final(self)@ =~= old(self)@.drop_last());
        }
    }

    /// Looks a name up across the whole stack, innermost scope first; the
    /// first hit wins.
    pub fn lookup(&self, id: &Vec<u8>) -> (r: Option<Symbol>)
        ensures
            r == stack_lookup(self@, id@),
    {
        let mut i: usize = self.scopes.len();
        proof {
            assert(self@.subrange(0, self@.len() as int) =~= self@);
        }
        while i > 0
            invariant
                i <= self.scopes@.len(),
                stack_lookup(self@, id@) == stack_lookup(self@.subrange(0, i as int), id@),
            decreases i,
        {
            let r = self.scopes[i - 1].lookup(id);
            proof {
                let pre = self@.subrange(0, i as int);
                assert(pre.last() == self@[i - 1]);
                assert(pre.drop_last() =~= self@.subrange(0, i - 1));
            }
            if let Option::Some(sym) = r {
                return Option::Some(sym);
            }
            i = i - 1;
        }
        proof {
            assert(self@.subrange(0, 0) =~= Seq::<Map<Seq<u8>, Symbol>>::empty());
        }
        Option::None
    }
}

} // verus!

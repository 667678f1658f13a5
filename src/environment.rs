use vstd::prelude::*;

use crate::ast::{StmtBlock, StmtView};
use crate::token::{LiteralView, Token, TokenLiterals, TokenView, token_views};

verus! {

/// A callable value: its name, its parameter names and its body.
#[derive(Debug)]
pub struct FunctionObject {
    pub name: Token,
    pub params: Vec<Token>,
    pub body: StmtBlock,
}

/// A value bound to a name.
#[derive(Debug)]
pub enum SplaxDeclarations {
    Literals(Box<TokenLiterals>),
    Functions(Box<FunctionObject>),
}

/// A bound value as a mathematical object.
pub enum DeclView {
    Literal(LiteralView),
    Function(TokenView, Seq<TokenView>, Seq<StmtView>),
}

impl View for SplaxDeclarations {
    type V = DeclView;

    open spec fn view(&self) -> DeclView {
        match self {
            SplaxDeclarations::Literals(l) => DeclView::Literal((**l)@),
            SplaxDeclarations::Functions(f) => DeclView::Function(
                f.name@,
                token_views(f.params@),
                f.body.views(),
            ),
        }
    }
}

impl SplaxDeclarations {
    /// A copy of this value.
    pub fn duplicate(&self) -> (r: SplaxDeclarations)
        ensures
            r@ == self@,
    {
        match self {
            SplaxDeclarations::Literals(l) => SplaxDeclarations::Literals(Box::new(l.duplicate())),
            SplaxDeclarations::Functions(f) => {
                let params = crate::ast::duplicate_tokens(&f.params);
                proof {
                    assert(token_views(params@) == token_views(f.params@));
                }
                SplaxDeclarations::Functions(
                    Box::new(
                        FunctionObject {
                            name: f.name.duplicate(),
                            params,
                            body: f.body.duplicate(),
                        },
                    ),
                )
            },
        }
    }
}

/// A reference to a name that no scope of the chain binds.
#[derive(Debug)]
pub struct UnboundVariable {
    pub name: String,
    pub line: usize,
}

/// One scope as a map from names to values.
pub type ScopeMap = Map<Seq<char>, DeclView>;

/// The map of the first `n` bindings.
pub open spec fn bindings_map(vs: Seq<(String, SplaxDeclarations)>, n: int) -> ScopeMap
    decreases n,
{
    if n <= 0 || n > vs.len() {
        Map::empty()
    } else {
        bindings_map(vs, n - 1).insert(vs[n - 1].0@, vs[n - 1].1@)
    }
}

/// No two bindings of the scope share a name.
pub open spec fn unique_names(vs: Seq<(String, SplaxDeclarations)>) -> bool {
    forall|i: int, j: int|
        0 <= i < vs.len() && 0 <= j < vs.len() && i != j ==> (#[trigger] vs[i]).0@ != (
        #[trigger] vs[j]).0@
}

/// The value that the innermost scope binding `name` gives it.
pub open spec fn lookup(chain: Seq<ScopeMap>, name: Seq<char>) -> Option<DeclView>
    decreases chain.len(),
{
    if chain.len() == 0 {
        None
    } else if chain[0].contains_key(name) {
        Some(chain[0][name])
    } else {
        lookup(chain.drop_first(), name)
    }
}

/// The chain after binding `name` to `v` in its innermost scope.
pub open spec fn define_in(chain: Seq<ScopeMap>, name: Seq<char>, v: DeclView) -> Seq<ScopeMap> {
    chain.update(0, chain[0].insert(name, v))
}

/// The chain after overwriting the innermost binding of `name` with `v`.
pub open spec fn assign_in(chain: Seq<ScopeMap>, name: Seq<char>, v: DeclView) -> Seq<ScopeMap>
    decreases chain.len(),
{
    if chain.len() == 0 {
        chain
    } else if chain[0].contains_key(name) {
        chain.update(0, chain[0].insert(name, v))
    } else {
        seq![chain[0]] + assign_in(chain.drop_first(), name, v)
    }
}

/// A chain of nested scopes: the bindings of the innermost scope and the
/// enclosing environment it belongs to.
#[derive(Debug)]
pub struct Environment {
    pub enclosing: Option<Box<Environment>>,
    pub values: Vec<(String, SplaxDeclarations)>,
}

impl Environment {
    /// The bindings of the innermost scope.
    pub open spec fn scope(&self) -> ScopeMap {
        bindings_map(self.values@, self.values@.len() as int)
    }

    /// The scopes of the chain, innermost first.
    pub open spec fn scopes(&self) -> Seq<ScopeMap>
        decreases self,
    {
        match self.enclosing {
            Some(e) => seq![self.scope()] + e.scopes(),
            None => seq![self.scope()],
        }
    }

    /// Every scope of the chain binds each name at most once.
    pub open spec fn wf(&self) -> bool
        decreases self,
    {
        &&& unique_names(self.values@)
        &&& match self.enclosing {
            Some(e) => e.wf(),
            None => true,
        }
    }

    /// A new empty scope inside `enclosing`.
    pub fn new(enclosing: Option<Box<Environment>>) -> (r: Environment)
        requires
            match enclosing {
                Some(e) => e.wf(),
                None => true,
            },
        ensures
            r.wf(),
            r.scopes() == seq![Map::<Seq<char>, DeclView>::empty()] + match enclosing {
                Some(e) => e.scopes(),
                None => Seq::empty(),
            },
    {
        let r = Environment { enclosing, values: Vec::new() };
        assert(r.scope() =~= Map::empty());
        assert(r.scopes() =~= seq![Map::<Seq<char>, DeclView>::empty()] + match r.enclosing {
            Some(e) => e.scopes(),
            None => Seq::empty(),
        });
        r
    }

    /// Discards the innermost scope and hands back the enclosing one.
    pub fn into_enclosing(self) -> (r: Option<Box<Environment>>)
        requires
            self.wf(),
        ensures
            match r {
                Some(e) => e.wf() && e.scopes() == self.scopes().drop_first(),
                None => self.scopes().len() == 1,
            },
    {
        match self.enclosing {
            Some(e) => {
                assert(self.scopes().drop_first() =~= e.scopes());
                Some(e)
            },
            None => None,
        }
    }

    /// The position of the binding of `name` in the innermost scope.
    fn position(&self, name: &String) -> (r: Option<usize>)
        requires
            self.wf(),
        ensures
            match r {
                Some(i) => i < self.values@.len() && self.values@[i as int].0@ == name@,
                None => !self.scope().contains_key(name@),
            },
    {
        let mut i: usize = 0;
        while i < self.values.len()
            invariant
                i <= self.values@.len(),
                forall|k: int| 0 <= k < i ==> (#[trigger] self.values@[k]).0@ != name@,
            decreases self.values@.len() - i,
        {
            if self.values[i].0 == *name {
                return Some(i);
            }
            i = i + 1;
        }
        proof {
            lemma_bindings_keys(self.values@, self.values@.len() as int, name@);
        }
        None
    }

    /// Binds `name` to `value` in the innermost scope, replacing a binding of
    /// the same name there only.
    pub fn define(&mut self, name: String, value: SplaxDeclarations)
        requires
            old(self).wf(),
        ensures
            final(self).wf(),
            final(self).scopes() == define_in(old(self).scopes(), name@, value@),
    {
        let ghost n = name@;
        let ghost v = value@;
        match self.position(&name) {
            Some(i) => {
                let ghost before = self.values@;
                self.values.set(i, (name, value));
                proof {
                    lemma_bindings_set(before, i as int, (n, v));
                    assert(self.values@ == before.update(i as int, self.values@[i as int]));
                    assert forall|k: int| 0 <= k < self.values@.len() implies (
                    #[trigger] self.values@[k]).0@ == before[k].0@ by {}
                }
            },
            None => {
                let ghost before = self.values@;
                self.values.push((name, value));
                proof {
                    lemma_bindings_push(before, self.values@[before.len() as int]);
                    assert forall|k: int| 0 <= k < before.len() implies (#[trigger] before[k]).0@
                        != n by {
                        lemma_bindings_index(before, k);
                    }
                    assert forall|k: int| 0 <= k < before.len() implies (
                    #[trigger] self.values@[k]) == before[k] by {}
                }
            },
        }
        assert(self.scopes() =~= define_in(old(self).scopes(), n, v));
    }

    /// The value of the innermost binding of `name`, if any scope binds it.
    pub fn get_from_str(&self, name: &String) -> (r: Option<SplaxDeclarations>)
        requires
            self.wf(),
        ensures
            match r {
                Some(v) => lookup(self.scopes(), name@) == Some(v@),
                None => lookup(self.scopes(), name@) is None,
            },
        decreases self,
    {
        match self.position(name) {
            Some(i) => {
                proof {
                    lemma_bindings_index(self.values@, i as int);
                    assert(self.scopes()[0] == self.scope());
                    assert(self.scope().contains_key(name@));
                    assert(lookup(self.scopes(), name@) == Some(self.scope()[name@]));
                }
                let v = self.values[i].1.duplicate();
                assert(v@ == self.scope()[name@]);
                Some(v)
            },
            None => {
                assert(self.scopes()[0] == self.scope());
                match &self.enclosing {
                    Some(e) => {
                        assert(self.scopes().drop_first() =~= e.scopes());
                        assert(lookup(self.scopes(), name@) == lookup(e.scopes(), name@));
                        e.get_from_str(name)
                    },
                    None => {
                        assert(self.scopes().drop_first() =~= Seq::<ScopeMap>::empty());
                        None
                    },
                }
            },
        }
    }
}

impl Environment {
    /// Overwrites the innermost binding of `name` with `value` and returns
    /// the value it had; `None`, and nothing changed, when no scope binds it.
    pub fn assign_from_str(&mut self, name: &String, value: SplaxDeclarations) -> (r: Option<
        SplaxDeclarations,
    >)
        requires
            old(self).wf(),
        ensures
            final(self).wf(),
            match lookup(old(self).scopes(), name@) {
                Some(prev) => r is Some && r->0@ == prev && final(self).scopes() == assign_in(
                    old(self).scopes(),
                    name@,
                    value@,
                ),
                None => r is None && final(self).scopes() == old(self).scopes(),
            },
        decreases *old(self),
    {
        let ghost v = value@;
        match self.position(name) {
            Some(i) => {
                proof {
                    lemma_bindings_index(self.values@, i as int);
                    assert(self.scopes()[0] == self.scope());
                }
                let prev = self.values[i].1.duplicate();
                let ghost before = self.values@;
                self.values.set(i, (name.clone(), value));
                proof {
                    lemma_bindings_set(before, i as int, (name@, v));
                    assert(self.values@ == before.update(i as int, self.values@[i as int]));
                    assert forall|k: int| 0 <= k < self.values@.len() implies (
                    #[trigger] self.values@[k]).0@ == before[k].0@ by {}
                }
                assert(self.scopes() =~= assign_in(old(self).scopes(), name@, v));
                Some(prev)
            },
            None => {
                assert(old(self).scopes()[0] == old(self).scope());
                match &mut self.enclosing {
                    Some(e) => {
                        assert(old(self).scopes().drop_first() =~= e.scopes());
                        assert(lookup(old(self).scopes(), name@) == lookup(e.scopes(), name@));
                        assert(assign_in(old(self).scopes(), name@, v) == seq![old(self).scope()]
                            + assign_in(e.scopes(), name@, v));
                        let r = e.assign_from_str(name, value);
                        assert(self.scopes() =~= seq![self.scope()] + e.scopes());
                        proof {
                            if lookup(old(self).scopes(), name@) is Some {
                                assert(self.scopes() =~= assign_in(old(self).scopes(), name@, v));
                            } else {
                                assert(self.scopes() =~= old(self).scopes());
                            }
                        }
                        r
                    },
                    None => {
                        assert(old(self).scopes().drop_first() =~= Seq::<ScopeMap>::empty());
                        None
                    },
                }
            },
        }
    }

    /// Overwrites the innermost binding of the variable `name` and returns
    /// the value it had, or fails when no scope binds it.
    pub fn assign(&mut self, name: Token, value: SplaxDeclarations) -> (r: Result<
        SplaxDeclarations,
        UnboundVariable,
    >)
        requires
            old(self).wf(),
        ensures
            final(self).wf(),
            match lookup(old(self).scopes(), name.lexeme@) {
                Some(prev) => r is Ok && r->Ok_0@ == prev && final(self).scopes() == assign_in(
                    old(self).scopes(),
                    name.lexeme@,
                    value@,
                ),
                None => r is Err && r->Err_0.name@ == name.lexeme@ && r->Err_0.line == name.line
                    && final(self).scopes() == old(self).scopes(),
            },
    {
        match self.assign_from_str(&name.lexeme, value) {
            Some(prev) => Ok(prev),
            None => Err(UnboundVariable { name: name.lexeme, line: name.line }),
        }
    }

    /// The value of the innermost binding of the variable `name`, or a
    /// failure when no scope binds it.
    pub fn get(&self, name: Token) -> (r: Result<SplaxDeclarations, UnboundVariable>)
        requires
            self.wf(),
        ensures
            match lookup(self.scopes(), name.lexeme@) {
                Some(v) => r is Ok && r->Ok_0@ == v,
                None => r is Err && r->Err_0.name@ == name.lexeme@ && r->Err_0.line == name.line,
            },
    {
        match self.get_from_str(&name.lexeme) {
            Some(v) => Ok(v),
            None => Err(UnboundVariable { name: name.lexeme, line: name.line }),
        }
    }
}

/// Defining a name in a fresh inner scope shadows any enclosing binding of
/// it: the inner chain gives the new value, and discarding the inner scope
/// gives back the enclosing chain unchanged, with its own binding intact.
pub proof fn law_define_shadows(outer: Seq<ScopeMap>, name: Seq<char>, v: DeclView)
    ensures
        lookup(define_in(seq![Map::empty()] + outer, name, v), name) == Some(v),
        define_in(seq![Map::empty()] + outer, name, v).drop_first() == outer,
{
    let inner = define_in(seq![Map::empty()] + outer, name, v);
    assert(inner[0].contains_key(name));
    assert(inner.drop_first() =~= outer);
}

/// Assigning a name that only an enclosing scope binds changes that
/// enclosing binding: the innermost scope is left as it was, and the
/// enclosing chain now gives the assigned value.
pub proof fn law_assign_reaches_enclosing(chain: Seq<ScopeMap>, name: Seq<char>, v: DeclView)
    requires
        chain.len() >= 1,
        !chain[0].contains_key(name),
        lookup(chain.drop_first(), name) is Some,
    ensures
        assign_in(chain, name, v)[0] == chain[0],
        lookup(assign_in(chain, name, v).drop_first(), name) == Some(v),
{
    let rest = assign_in(chain.drop_first(), name, v);
    assert(assign_in(chain, name, v) == seq![chain[0]] + rest);
    assert((seq![chain[0]] + rest).drop_first() =~= rest);
    lemma_assign_then_lookup(chain.drop_first(), name, v);
}

/// After assigning a bound name, looking it up gives the assigned value.
pub proof fn lemma_assign_then_lookup(chain: Seq<ScopeMap>, name: Seq<char>, v: DeclView)
    requires
        lookup(chain, name) is Some,
    ensures
        lookup(assign_in(chain, name, v), name) == Some(v),
    decreases chain.len(),
{
    if !chain[0].contains_key(name) {
        let rest = assign_in(chain.drop_first(), name, v);
        lemma_assign_then_lookup(chain.drop_first(), name, v);
        assert((seq![chain[0]] + rest).drop_first() =~= rest);
    }
}

/// A name that no scope of a chain binds is bound in none of its enclosing
/// chains either, from the innermost scope out to the outermost, and
/// assigning it changes nothing.
pub proof fn law_unbound_everywhere(chain: Seq<ScopeMap>, name: Seq<char>, v: DeclView)
    requires
        lookup(chain, name) is None,
    ensures
        forall|k: int| 0 <= k <= chain.len() ==> #[trigger] lookup(chain.subrange(k, chain.len() as int), name) is None,
        assign_in(chain, name, v) == chain,
    decreases chain.len(),
{
    if chain.len() > 0 {
        law_unbound_everywhere(chain.drop_first(), name, v);
        assert forall|k: int| 0 <= k <= chain.len() implies #[trigger] lookup(
            chain.subrange(k, chain.len() as int),
            name,
        ) is None by {
            if k == 0 {
                assert(chain.subrange(0, chain.len() as int) =~= chain);
            } else {
                assert(chain.subrange(k, chain.len() as int) =~= chain.drop_first().subrange(
                    k - 1,
                    chain.drop_first().len() as int,
                ));
            }
        }
        assert(assign_in(chain, name, v) =~= chain);
    } else {
        assert forall|k: int| 0 <= k <= chain.len() implies #[trigger] lookup(
            chain.subrange(k, chain.len() as int),
            name,
        ) is None by {
            assert(chain.subrange(k, chain.len() as int).len() == 0);
        }
    }
}

pub proof fn lemma_bindings_keys(vs: Seq<(String, SplaxDeclarations)>, n: int, name: Seq<char>)
    requires
        0 <= n <= vs.len(),
        forall|k: int| 0 <= k < n ==> (#[trigger] vs[k]).0@ != name,
    ensures
        !bindings_map(vs, n).contains_key(name),
    decreases n,
{
    if n > 0 {
        lemma_bindings_keys(vs, n - 1, name);
    }
}

pub proof fn lemma_bindings_index(vs: Seq<(String, SplaxDeclarations)>, i: int)
    requires
        unique_names(vs),
        0 <= i < vs.len(),
    ensures
        bindings_map(vs, vs.len() as int).contains_key(vs[i].0@),
        bindings_map(vs, vs.len() as int)[vs[i].0@] == vs[i].1@,
{
    lemma_bindings_index_upto(vs, i, vs.len() as int);
}

proof fn lemma_bindings_index_upto(vs: Seq<(String, SplaxDeclarations)>, i: int, n: int)
    requires
        unique_names(vs),
        0 <= i < n <= vs.len(),
    ensures
        bindings_map(vs, n).contains_key(vs[i].0@),
        bindings_map(vs, n)[vs[i].0@] == vs[i].1@,
    decreases n,
{
    if n - 1 > i {
        lemma_bindings_index_upto(vs, i, n - 1);
        assert(vs[n - 1].0@ != vs[i].0@);
    }
}

proof fn lemma_bindings_push(vs: Seq<(String, SplaxDeclarations)>, b: (String, SplaxDeclarations))
    ensures
        bindings_map(vs.push(b), vs.len() + 1int) == bindings_map(vs, vs.len() as int).insert(b.0@, b.1@),
{
    lemma_bindings_prefix(vs, b, vs.len() as int);
}

proof fn lemma_bindings_prefix(vs: Seq<(String, SplaxDeclarations)>, b: (String, SplaxDeclarations), n: int)
    requires
        0 <= n <= vs.len(),
    ensures
        bindings_map(vs.push(b), n) == bindings_map(vs, n),
    decreases n,
{
    if n > 0 {
        lemma_bindings_prefix(vs, b, n - 1);
        assert(vs.push(b)[n - 1] == vs[n - 1]);
    }
}

proof fn lemma_bindings_set(vs: Seq<(String, SplaxDeclarations)>, i: int, nv: (Seq<char>, DeclView))
    requires
        unique_names(vs),
        0 <= i < vs.len(),
        vs[i].0@ == nv.0,
    ensures
        forall|b: (String, SplaxDeclarations)| b.0@ == nv.0 && b.1@ == nv.1 ==> bindings_map(
            #[trigger] vs.update(i, b),
            vs.len() as int,
        ) == bindings_map(vs, vs.len() as int).insert(nv.0, nv.1),
{
    assert forall|b: (String, SplaxDeclarations)| b.0@ == nv.0 && b.1@ == nv.1 implies bindings_map(
        #[trigger] vs.update(i, b),
        vs.len() as int,
    ) == bindings_map(vs, vs.len() as int).insert(nv.0, nv.1) by {
        lemma_bindings_update(vs, i, b, vs.len() as int);
    }
}

proof fn lemma_bindings_update(vs: Seq<(String, SplaxDeclarations)>, i: int, b: (String, SplaxDeclarations), n: int)
    requires
        unique_names(vs),
        0 <= i < vs.len(),
        vs[i].0@ == b.0@,
        0 <= n <= vs.len(),
    ensures
        n > i ==> bindings_map(vs.update(i, b), n) == bindings_map(vs, n).insert(b.0@, b.1@),
        n <= i ==> bindings_map(vs.update(i, b), n) == bindings_map(vs, n),
    decreases n,
{
    if n > 0 {
        lemma_bindings_update(vs, i, b, n - 1);
        if n - 1 > i {
            assert(vs[n - 1].0@ != vs[i].0@);
            assert(bindings_map(vs.update(i, b), n) =~= bindings_map(vs, n).insert(b.0@, b.1@));
        } else if n - 1 == i {
            assert(bindings_map(vs.update(i, b), n) =~= bindings_map(vs, n).insert(b.0@, b.1@));
        }
    }
}

} // verus!

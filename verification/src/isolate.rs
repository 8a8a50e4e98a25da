use crate::value::{NativeFunction, NativeThunk, NativeThunkInput, Value, ValueV};
use vstd::prelude::*;
use vstd::string::StringExecFns;

verus! {

// ---------------------------------------------------------------------------
// Runtime errors.
// ---------------------------------------------------------------------------

pub enum RuntimeErrorV {
    AlreadyBound { name: Seq<char> },
    Unbound { name: Seq<char> },
    NotCallable { name: Seq<char> },
}

/// What can go wrong while a program runs: a duplicate definition in one
/// scope, a reference to an undefined name, or a call of a value that is not
/// callable.
#[derive(Debug, PartialEq)]
pub enum RuntimeError {
    AlreadyBound { name: String },
    Unbound { name: String },
    NotCallable { name: String },
}

impl View for RuntimeError {
    type V = RuntimeErrorV;

    open spec fn view(&self) -> RuntimeErrorV {
        match self {
            RuntimeError::AlreadyBound { name } => RuntimeErrorV::AlreadyBound { name: name@ },
            RuntimeError::Unbound { name } => RuntimeErrorV::Unbound { name: name@ },
            RuntimeError::NotCallable { name } => RuntimeErrorV::NotCallable { name: name@ },
        }
    }
}

// ---------------------------------------------------------------------------
// Namespaces: one lexical scope, a mapping from names to values with unique
// keys.
// ---------------------------------------------------------------------------

/// The mapping a run of entries stands for; the earliest entry for a key
/// wins, though `bind` keeps the keys unique anyway.
pub open spec fn entries_map_from(es: Seq<(String, Value)>, i: int) -> Map<Seq<char>, ValueV>
    decreases es.len() - i,
{
    if i < 0 || i >= es.len() {
        Map::empty()
    } else {
        entries_map_from(es, i + 1).insert(es[i].0@, es[i].1.to_v())
    }
}

/// No two entries share a key.
pub open spec fn entries_unique(es: Seq<(String, Value)>) -> bool {
    forall|k1: int, k2: int|
        0 <= k1 < k2 < es.len() ==> (#[trigger] es[k1]).0@ != (#[trigger] es[k2]).0@
}

pub proof fn lemma_entries_map_from(es: Seq<(String, Value)>, i: int)
    requires
        0 <= i <= es.len(),
    ensures
        forall|name: Seq<char>|
            entries_map_from(es, i).contains_key(name) <==> exists|k: int|
                i <= k < es.len() && (#[trigger] es[k]).0@ == name,
        entries_unique(es) ==> forall|k: int|
            i <= k < es.len() ==> entries_map_from(es, i)[(#[trigger] es[k]).0@] == es[k].1.to_v(),
    decreases es.len() - i,
{
    if i < es.len() {
        lemma_entries_map_from(es, i + 1);
        assert forall|name: Seq<char>| entries_map_from(es, i).contains_key(name) implies exists|
            k: int,
        | i <= k < es.len() && (#[trigger] es[k]).0@ == name by {
            if es[i].0@ == name {
                assert(i <= i < es.len() && es[i].0@ == name);
            }
        }
        if entries_unique(es) {
            assert forall|k: int| i <= k < es.len() implies entries_map_from(es, i)[(
            #[trigger] es[k]).0@] == es[k].1.to_v() by {
                if k > i {
                    assert(es[i].0@ != es[k].0@);
                }
            }
        }
    }
}

/// One lexical scope.
#[derive(Debug, PartialEq)]
pub struct Namespace {
    pub variables: Vec<(String, Value)>,
}

impl View for Namespace {
    type V = Map<Seq<char>, ValueV>;

    open spec fn view(&self) -> Map<Seq<char>, ValueV> {
        entries_map_from(self.variables@, 0)
    }
}

impl Namespace {
    /// The keys of the scope stay unique: `bind` refuses duplicates.
    pub open spec fn wf(&self) -> bool {
        entries_unique(self.variables@)
    }

    /// An empty scope.
    pub fn new() -> (ns: Namespace)
        ensures
            ns.wf(),
            ns@ == Map::<Seq<char>, ValueV>::empty(),
    {
        Namespace { variables: Vec::new() }
    }

    /// Binds `name` to `value` in this scope; a name already present is
    /// refused with `AlreadyBound` and nothing changes.
    #[verifier::loop_isolation(false)]
    pub fn bind(&mut self, name: &String, value: Value) -> (r: Result<(), RuntimeError>)
        requires
            old(self).wf(),
        ensures
            final(self).wf(),
            if old(self)@.contains_key(name@) {
                &&& r matches Err(e) && e@ == (RuntimeErrorV::AlreadyBound { name: name@ })
                &&& final(self)@ == old(self)@
                &&& *final(self) == *old(self)
            } else {
                &&& r matches Ok(u)
                &&& final(self)@ == old(self)@.insert(name@, value@)
            },
    {
        proof {
            lemma_entries_map_from(self.variables@, 0);
        }
        let n = self.variables.len();
        let mut idx: usize = 0;
        while idx < n
            invariant
                n == self.variables.len(),
                idx <= n,
                forall|k: int| 0 <= k < idx ==> (#[trigger] self.variables@[k]).0@ != name@,
            decreases n - idx,
        {
            if self.variables[idx].0 == *name {
                return Err(RuntimeError::AlreadyBound { name: name.clone() });
            }
            idx = idx + 1;
        }
        let ghost old_es = self.variables@;
        self.variables.push((name.clone(), value));
        proof {
            let es = self.variables@;
            lemma_entries_map_push(old_es, es[old_es.len() as int]);
        }
        Ok(())
    }
}

/// Appending an entry with a fresh key adds exactly that binding.
proof fn lemma_entries_map_push(es: Seq<(String, Value)>, e: (String, Value))
    requires
        forall|k: int| 0 <= k < es.len() ==> (#[trigger] es[k]).0@ != e.0@,
    ensures
        forall|i: int|
            0 <= i <= es.len() ==> #[trigger] entries_map_from(es.push(e), i) == entries_map_from(
                es,
                i,
            ).insert(e.0@, e.1.to_v()),
{
    let full = es.push(e);
    assert forall|i: int|
        0 <= i <= es.len() implies #[trigger] entries_map_from(full, i) == entries_map_from(
        es,
        i,
    ).insert(e.0@, e.1.to_v()) by {
        lemma_entries_map_push_from(es, e, i);
    }
}

proof fn lemma_entries_map_push_from(es: Seq<(String, Value)>, e: (String, Value), i: int)
    requires
        forall|k: int| 0 <= k < es.len() ==> (#[trigger] es[k]).0@ != e.0@,
        0 <= i <= es.len(),
    ensures
        entries_map_from(es.push(e), i) == entries_map_from(es, i).insert(e.0@, e.1.to_v()),
    decreases es.len() - i,
{
    let full = es.push(e);
    if i == es.len() {
        assert(entries_map_from(full, i) == entries_map_from(full, i + 1).insert(
            full[i].0@,
            full[i].1.to_v(),
        ));
        assert(entries_map_from(full, i + 1) =~= Map::<Seq<char>, ValueV>::empty());
        assert(entries_map_from(es, i) =~= Map::<Seq<char>, ValueV>::empty());
        assert(entries_map_from(full, i) =~= entries_map_from(es, i).insert(e.0@, e.1.to_v()));
    } else {
        lemma_entries_map_push_from(es, e, i + 1);
        assert(full[i] == es[i]);
        assert(entries_map_from(es, i + 1).insert(e.0@, e.1.to_v()).insert(es[i].0@, es[i].1.to_v())
            =~= entries_map_from(es, i + 1).insert(es[i].0@, es[i].1.to_v()).insert(
            e.0@,
            e.1.to_v(),
        ));
    }
}

// ---------------------------------------------------------------------------
// The isolate: the whole evaluation session.
// ---------------------------------------------------------------------------

/// The model of the session: the scope stack (innermost last) and the log of
/// what the `debug` built-in has been handed so far.
pub struct IsolateV {
    pub namespaces: Seq<Map<Seq<char>, ValueV>>,
    pub debug_output: Seq<Seq<ValueV>>,
}

/// Lookup over a scope stack, innermost scope first.
pub open spec fn resolve_spec(nss: Seq<Map<Seq<char>, ValueV>>, name: Seq<char>) -> Option<ValueV>
    decreases nss.len(),
{
    if nss.len() == 0 {
        Option::None
    } else if nss.last().contains_key(name) {
        Option::Some(nss.last()[name])
    } else {
        resolve_spec(nss.drop_last(), name)
    }
}

/// Shadowing: whichever namespace is the innermost one that binds `name`
/// decides the lookup, whatever any outer namespace binds the same name to.
pub proof fn lemma_resolve_innermost(
    nss: Seq<Map<Seq<char>, ValueV>>,
    name: Seq<char>,
    i: int,
)
    requires
        0 <= i < nss.len(),
        nss[i].contains_key(name),
        forall|j: int| i < j < nss.len() ==> !(#[trigger] nss[j]).contains_key(name),
    ensures
        resolve_spec(nss, name) == Option::Some(nss[i][name]),
    decreases nss.len(),
{
    if i + 1 < nss.len() {
        lemma_resolve_innermost(nss.drop_last(), name, i);
    }
}

/// The evaluation session: a stack of scopes (innermost last), pre-seeded
/// with the `debug` built-in, plus the log of what `debug` received, which
/// the host renders after the run.
#[derive(Debug, PartialEq)]
pub struct Isolate {
    pub namespaces: Vec<Namespace>,
    pub debug_output: Vec<NativeThunkInput>,
}

impl View for Isolate {
    type V = IsolateV;

    open spec fn view(&self) -> IsolateV {
        IsolateV {
            namespaces: self.namespaces@.map_values(|ns: Namespace| ns@),
            debug_output: self.debug_output@.map_values(|i: NativeThunkInput| i@),
        }
    }
}

impl Isolate {
    /// The scope stack is never empty and every scope keeps its keys unique.
    pub open spec fn wf(&self) -> bool {
        &&& self.namespaces@.len() >= 1
        &&& forall|i: int|
            0 <= i < self.namespaces@.len() ==> (#[trigger] self.namespaces@[i]).wf()
    }

    /// A fresh session: one global namespace holding the `debug` built-in,
    /// and an empty output log.
    pub fn new() -> (iso: Isolate)
        ensures
            iso.wf(),
            iso@.namespaces.len() == 1,
            iso@.namespaces[0] == Map::<Seq<char>, ValueV>::empty().insert(
                "debug"@,
                ValueV::NativeThunk(NativeThunk { function: NativeFunction::Debug }),
            ),
            iso@.debug_output == Seq::<Seq<ValueV>>::empty(),
    {
        let mut global_namespace = Namespace::new();
        let name: String = String::from_str("debug");
        let r = global_namespace.bind(
            &name,
            Value::NativeThunk(NativeThunk { function: NativeFunction::Debug }),
        );
        let mut namespaces: Vec<Namespace> = Vec::new();
        namespaces.push(global_namespace);
        let iso = Isolate { namespaces, debug_output: Vec::new() };
        proof {
            assert(iso@.namespaces =~= seq![global_namespace@]);
            assert(iso@.debug_output =~= Seq::<Seq<ValueV>>::empty());
        }
        iso
    }

    /// Binds `name` in the innermost scope; `AlreadyBound` if that scope
    /// already has it, in which case nothing changes.
    pub fn bind(&mut self, name: &String, value: Value) -> (r: Result<(), RuntimeError>)
        requires
            old(self).wf(),
        ensures
            final(self).wf(),
            final(self)@.debug_output == old(self)@.debug_output,
            final(self)@.namespaces.len() == old(self)@.namespaces.len(),
            if old(self)@.namespaces.last().contains_key(name@) {
                &&& r matches Err(e) && e@ == (RuntimeErrorV::AlreadyBound { name: name@ })
                &&& final(self)@ == old(self)@
            } else {
                &&& r matches Ok(u)
                &&& final(self)@.namespaces == old(self)@.namespaces.drop_last().push(
                    old(self)@.namespaces.last().insert(name@, value@),
                )
            },
    {
        let last = match self.namespaces.pop() {
            Option::Some(ns) => ns,
            Option::None => {
                proof {
                    assert(false);
                }
                Namespace::new()
            },
        };
        let ghost popped = self.namespaces@;
        let mut last = last;
        let r = last.bind(name, value);
        self.namespaces.push(last);
        proof {
            let old_nss = old(self)@.namespaces;
            assert(self.namespaces@ == popped.push(last));
            assert(self@.namespaces =~= popped.map_values(|ns: Namespace| ns@).push(last@));
            assert(popped.map_values(|ns: Namespace| ns@) =~= old_nss.drop_last());
            if old(self)@.namespaces.last().contains_key(name@) {
                assert(self@.namespaces =~= old_nss);
                assert(self@ == old(self)@);
            }
        }
        r
    }

    /// Looks `name` up through the scope stack, innermost scope first.
    #[verifier::loop_isolation(false)]
    pub fn resolve(&self, name: &String) -> (r: Option<&Value>)
        requires
            self.wf(),
        ensures
            match r {
                Option::Some(v) => resolve_spec(self@.namespaces, name@) == Option::Some(v@),
                Option::None => resolve_spec(self@.namespaces, name@) is None,
            },
    {
        let ghost nss = self@.namespaces;
        let mut i: usize = self.namespaces.len();
        proof {
            assert(nss.len() == self.namespaces@.len());
            assert(nss.take(i as int) =~= nss);
        }
        while i > 0
            invariant
                self.wf(),
                i <= self.namespaces.len(),
                nss == self@.namespaces,
                resolve_spec(nss, name@) == resolve_spec(nss.take(i as int), name@),
            decreases i,
        {
            i = i - 1;
            let ns = &self.namespaces[i];
            proof {
                lemma_entries_map_from(ns.variables@, 0);
                assert(nss.take(i + 1).drop_last() =~= nss.take(i as int));
                assert(nss.take(i + 1).last() == nss[i as int]);
            }
            let m = ns.variables.len();
            let mut k: usize = 0;
            while k < m
                invariant
                    m == ns.variables.len(),
                    k <= m,
                    forall|t: int| 0 <= t < k ==> (#[trigger] ns.variables@[t]).0@ != name@,
                decreases m - k,
            {
                if ns.variables[k].0 == *name {
                    proof {
                        assert(nss[i as int].contains_key(name@));
                        assert(nss[i as int][name@] == ns.variables@[k as int].1.to_v());
                    }
                    return Option::Some(&ns.variables[k].1);
                }
                k = k + 1;
            }
            proof {
                assert(!nss[i as int].contains_key(name@));
            }
        }
        proof {
            assert(nss.take(0) =~= Seq::<Map<Seq<char>, ValueV>>::empty());
        }
        Option::None
    }
}

} // verus!

use crate::ast::{clone_parameters, names_of, same_names, BlockStatement, Identifier};
use crate::builtins::{builtin_named, lookup, NativeFn};
use crate::decimal::{int_text, int_to_text};
use vstd::prelude::*;
use vstd::string::StringExecFns;

verus! {

/// What a runtime value is, as mathematics.
pub enum ObjectView {
    Null,
    Integer(int),
    Boolean(bool),
    Text(Seq<char>),
    Return(Box<ObjectView>),
    Function { parameters: Seq<Seq<char>>, body: Seq<char>, env: Seq<Map<Seq<char>, ObjectView>> },
    Builtin(NativeFn),
    Error(Seq<char>),
}

/// A chain of scopes, innermost first: each maps the names bound in it to
/// their values.
pub type ScopeChain = Seq<Map<Seq<char>, ObjectView>>;

/// A runtime value.
#[derive(Debug)]
pub enum Object {
    /// The absence of a value.
    Null,
    IntegerObj(i64),
    BooleanObj(bool),
    StringObj(String),
    /// The value of an early return, on its way out of a function body.
    ReturnObj(Box<Object>),
    /// A closure: `env` is the scope in which the function literal stood.
    FunctionObj { parameters: Vec<Identifier>, body: BlockStatement, env: Environment },
    /// A native callable of the builtins.
    BuilinObj { func: NativeFn },
    /// A runtime error, carried as a value.
    ErrorObj(String),
}

/// One name bound to one value.
#[derive(Debug)]
struct Binding {
    name: String,
    value: Object,
}

/// One lexical scope with the scopes that enclose it. A scope holds its
/// enclosing scopes as they were when it was made: what is bound in them
/// later does not show in it.
#[derive(Debug)]
pub struct Environment {
    store: Vec<Binding>,
    outer: Option<Box<Environment>>,
}

/// The map that a list of bindings stands for: where a name occurs twice,
/// the later entry counts.
spec fn bindings_of(store: Seq<Binding>) -> Map<Seq<char>, ObjectView>
    decreases store,
{
    if store.len() == 0 {
        Map::empty()
    } else {
        bindings_of(store.drop_last()).insert(store.last().name@, value_of(store.last().value))
    }
}

/// The value that an object stands for.
pub open spec fn value_of(object: Object) -> ObjectView
    decreases object,
{
    match object {
        Object::Null => ObjectView::Null,
        Object::IntegerObj(i) => ObjectView::Integer(i as int),
        Object::BooleanObj(b) => ObjectView::Boolean(b),
        Object::StringObj(s) => ObjectView::Text(s@),
        Object::ReturnObj(inner) => ObjectView::Return(Box::new(value_of(*inner))),
        Object::FunctionObj { parameters, body, env } => ObjectView::Function {
            parameters: names_of(parameters@),
            body: body@,
            env: chain_of(env),
        },
        Object::BuilinObj { func } => ObjectView::Builtin(func),
        Object::ErrorObj(message) => ObjectView::Error(message@),
    }
}

/// The chain of scopes that an environment stands for, itself first.
pub closed spec fn chain_of(env: Environment) -> ScopeChain
    decreases env,
{
    seq![bindings_of(env.store@)] + match env.outer {
        Some(parent) => chain_of(*parent),
        None => Seq::empty(),
    }
}

impl View for Object {
    type V = ObjectView;

    open spec fn view(&self) -> ObjectView {
        value_of(*self)
    }
}

impl View for Environment {
    type V = ScopeChain;

    open spec fn view(&self) -> ScopeChain {
        chain_of(*self)
    }
}

/// What a lookup of `name` finds in a chain of scopes: the binding of the
/// innermost scope that has one.
pub open spec fn resolve(chain: ScopeChain, name: Seq<char>) -> Option<ObjectView>
    decreases chain.len(),
{
    if chain.len() == 0 {
        None
    } else if chain[0].contains_key(name) {
        Some(chain[0][name])
    } else {
        resolve(chain.skip(1), name)
    }
}

/// The chain after `name` is bound to `value` in its innermost scope.
pub open spec fn bind(chain: ScopeChain, name: Seq<char>, value: ObjectView) -> ScopeChain
    recommends
        chain.len() > 0,
{
    chain.update(0, chain[0].insert(name, value))
}

/// The chain of a fresh scope inside `parent`.
pub open spec fn enclose(parent: ScopeChain) -> ScopeChain {
    seq![Map::empty()] + parent
}

/// The display text of a value.
pub open spec fn inspect_text(value: ObjectView) -> Seq<char>
    decreases value,
{
    match value {
        ObjectView::Integer(i) => int_text(i),
        ObjectView::Boolean(b) => if b {
            "true"@
        } else {
            "false"@
        },
        ObjectView::Return(inner) => inspect_text(*inner),
        ObjectView::Text(s) => s,
        ObjectView::Error(message) => message,
        ObjectView::Null => "null"@,
        _ => Seq::empty(),
    }
}

/// The type tag of a value, as error messages name it.
pub open spec fn tag_text(value: ObjectView) -> Seq<char> {
    match value {
        ObjectView::Integer(_) => "INTEGER"@,
        ObjectView::Boolean(_) => "BOOLEAN"@,
        _ => "NOT_DEFINED"@,
    }
}

/// The views of an optional object.
pub open spec fn found(result: Option<Object>) -> Option<ObjectView> {
    match result {
        Some(object) => Some(object@),
        None => None,
    }
}

/// No name occurs twice in a list of bindings.
spec fn distinct_names(store: Seq<Binding>) -> bool {
    forall|i: int, j: int| 0 <= i < j < store.len() ==> store[i].name@ != store[j].name@
}

/// The chain of outer scopes that an optional parent stands for.
spec fn rest_of(outer: Option<Box<Environment>>) -> ScopeChain {
    match outer {
        Some(parent) => chain_of(*parent),
        None => Seq::empty(),
    }
}

/// An environment's chain is its own bindings, then the chain of its parent.
proof fn lemma_chain(env: Environment)
    ensures
        chain_of(env).len() > 0,
        chain_of(env)[0] == bindings_of(env.store@),
        chain_of(env).skip(1) == rest_of(env.outer),
        chain_of(env) == seq![bindings_of(env.store@)] + rest_of(env.outer),
{
    assert(chain_of(env) == seq![bindings_of(env.store@)] + rest_of(env.outer));
    assert(chain_of(env).skip(1) =~= rest_of(env.outer));
}

/// A name that no entry carries is not in the map.
proof fn lemma_no_match(store: Seq<Binding>, name: Seq<char>)
    requires
        forall|j: int| 0 <= j < store.len() ==> store[j].name@ != name,
    ensures
        !bindings_of(store).contains_key(name),
    decreases store.len(),
{
    if store.len() > 0 {
        lemma_no_match(store.drop_last(), name);
    }
}

/// The last entry under a name gives the name's value in the map.
proof fn lemma_last_match(store: Seq<Binding>, i: int)
    requires
        0 <= i < store.len(),
        forall|j: int| i < j < store.len() ==> store[j].name@ != store[i].name@,
    ensures
        bindings_of(store).contains_key(store[i].name@),
        bindings_of(store)[store[i].name@] == store[i].value@,
    decreases store.len(),
{
    if i < store.len() - 1 {
        lemma_last_match(store.drop_last(), i);
    }
}

/// Replacing the last entry under a name rebinds that name and no other.
proof fn lemma_replace(store: Seq<Binding>, i: int, binding: Binding)
    requires
        0 <= i < store.len(),
        binding.name@ == store[i].name@,
        forall|j: int| i < j < store.len() ==> store[j].name@ != store[i].name@,
    ensures
        bindings_of(store.update(i, binding)) == bindings_of(store).insert(
            binding.name@,
            binding.value@,
        ),
    decreases store.len(),
{
    let after = store.update(i, binding);
    if i == store.len() - 1 {
        assert(after.drop_last() =~= store.drop_last());
    } else {
        lemma_replace(store.drop_last(), i, binding);
        assert(after.drop_last() =~= store.drop_last().update(i, binding));
    }
    assert(bindings_of(after) =~= bindings_of(store).insert(binding.name@, binding.value@));
}

/// Lists that agree entry by entry stand for the same map.
proof fn lemma_same_bindings(a: Seq<Binding>, b: Seq<Binding>)
    requires
        a.len() == b.len(),
        forall|j: int| 0 <= j < a.len() ==> a[j].name@ == b[j].name@ && a[j].value@ == b[j].value@,
    ensures
        bindings_of(a) == bindings_of(b),
    decreases a.len(),
{
    if a.len() > 0 {
        lemma_same_bindings(a.drop_last(), b.drop_last());
    }
}

/// Every entry of a list puts its name into the map.
proof fn lemma_entry_has_key(store: Seq<Binding>, i: int)
    requires
        0 <= i < store.len(),
    ensures
        bindings_of(store).contains_key(store[i].name@),
    decreases store.len(),
{
    if i < store.len() - 1 {
        lemma_entry_has_key(store.drop_last(), i);
    }
}

/// Every name of the map comes from an entry of the list.
proof fn lemma_key_has_entry(store: Seq<Binding>, name: Seq<char>)
    requires
        bindings_of(store).contains_key(name),
    ensures
        exists|i: int| 0 <= i < store.len() && store[i].name@ == name,
    decreases store.len(),
{
    if store.len() > 0 {
        if store.last().name@ == name {
            assert(store[store.len() - 1].name@ == name);
        } else {
            lemma_key_has_entry(store.drop_last(), name);
            let i = choose|i: int| 0 <= i < store.len() - 1 && store.drop_last()[i].name@ == name;
            assert(store[i].name@ == name);
        }
    }
}

/// Every binding of `a` is a binding of `b`.
spec fn included(
    a: Map<Seq<char>, ObjectView>,
    b: Map<Seq<char>, ObjectView>,
) -> bool {
    forall|name: Seq<char>| #[trigger]
        a.contains_key(name) ==> b.contains_key(name) && b[name] == a[name]
}

/// The index of the last binding of `name` in `store`, if it has one.
fn find(store: &Vec<Binding>, name: &String) -> (res: Option<usize>)
    ensures
        match res {
            Some(i) => i < store.len() && store[i as int].name@ == name@ && forall|j: int|
                i < j < store.len() ==> store[j].name@ != name@,
            None => forall|j: int| 0 <= j < store.len() ==> store[j].name@ != name@,
        },
{
    let mut i: usize = store.len();
    while i > 0
        invariant
            i <= store.len(),
            forall|j: int| i <= j < store.len() ==> store[j].name@ != name@,
        decreases i,
    {
        i -= 1;
        if store[i].name == *name {
            return Some(i);
        }
    }
    None
}

/// A copy of `object`, captured scopes included.
pub fn copy_object(object: &Object) -> (res: Object)
    ensures
        res@ == object@,
    decreases *object,
{
    match object {
        Object::Null => Object::Null,
        Object::IntegerObj(i) => Object::IntegerObj(*i),
        Object::BooleanObj(b) => Object::BooleanObj(*b),
        Object::StringObj(s) => Object::StringObj(s.clone()),
        Object::ReturnObj(inner) => Object::ReturnObj(Box::new(copy_object(inner))),
        Object::FunctionObj { parameters, body, env } => Object::FunctionObj {
            parameters: clone_parameters(parameters),
            body: body.clone(),
            env: copy_environment(env),
        },
        Object::BuilinObj { func } => Object::BuilinObj { func: *func },
        Object::ErrorObj(message) => Object::ErrorObj(message.clone()),
    }
}

/// A copy of `env` and of every scope that encloses it.
pub fn copy_environment(env: &Environment) -> (res: Environment)
    ensures
        res@ == env@,
    decreases *env,
{
    let mut store: Vec<Binding> = Vec::new();
    let mut i: usize = 0;
    while i < env.store.len()
        invariant
            i <= env.store.len(),
            store.len() == i,
            forall|j: int|
                0 <= j < i ==> store[j].name@ == env.store[j].name@ && store[j].value@
                    == env.store[j].value@,
        decreases env.store.len() - i,
    {
        let binding = &env.store[i];
        store.push(Binding { name: binding.name.clone(), value: copy_object(&binding.value) });
        i += 1;
    }
    proof {
        use_type_invariant(env);
        lemma_same_bindings(store@, env.store@);
    }
    let outer = match &env.outer {
        Some(parent) => Some(Box::new(copy_environment(parent))),
        None => None,
    };
    Environment { store, outer }
}

/// Whether every binding of `a` is a binding of `b`.
fn covered(a: &Vec<Binding>, b: &Vec<Binding>) -> (res: bool)
    requires
        distinct_names(a@),
    ensures
        res == included(bindings_of(a@), bindings_of(b@)),
    decreases *a,
{
    let mut i: usize = 0;
    while i < a.len()
        invariant
            i <= a.len(),
            distinct_names(a@),
            forall|j: int|
                0 <= j < i ==> bindings_of(b@).contains_key(#[trigger] a[j].name@) && bindings_of(
                    b@,
                )[a[j].name@] == bindings_of(a@)[a[j].name@],
        decreases a.len() - i,
    {
        proof {
            lemma_last_match(a@, i as int);
        }
        match find(b, &a[i].name) {
            Some(other) => {
                proof {
                    lemma_last_match(b@, other as int);
                }
                if !same_object(&a[i].value, &b[other].value) {
                    return false;
                }
            },
            None => {
                proof {
                    lemma_no_match(b@, a[i as int].name@);
                }
                return false;
            },
        }
        i += 1;
    }
    assert forall|name: Seq<char>| #[trigger] bindings_of(a@).contains_key(name) implies bindings_of(
        b@,
    ).contains_key(name) && bindings_of(b@)[name] == bindings_of(a@)[name] by {
        lemma_key_has_entry(a@, name);
        let j = choose|j: int| 0 <= j < a.len() && a[j].name@ == name;
        assert(bindings_of(b@).contains_key(a[j].name@));
    }
    true
}

/// Whether two objects are the same value: the same kind with the same
/// payload, and for functions the same parameters, body and captured scopes.
pub fn same_object(a: &Object, b: &Object) -> (res: bool)
    ensures
        res == (a@ == b@),
    decreases *a,
{
    match a {
        Object::Null => match b {
            Object::Null => true,
            _ => false,
        },
        Object::IntegerObj(x) => match b {
            Object::IntegerObj(y) => *x == *y,
            _ => false,
        },
        Object::BooleanObj(x) => match b {
            Object::BooleanObj(y) => *x == *y,
            _ => false,
        },
        Object::StringObj(x) => match b {
            Object::StringObj(y) => *x == *y,
            _ => false,
        },
        Object::ReturnObj(x) => match b {
            Object::ReturnObj(y) => same_object(x, y),
            _ => false,
        },
        Object::FunctionObj { parameters, body, env } => match b {
            Object::FunctionObj { parameters: parameters_b, body: body_b, env: env_b } => {
                same_names(parameters, parameters_b) && body.source == body_b.source
                    && same_environment(env, env_b)
            },
            _ => false,
        },
        Object::BuilinObj { func } => match b {
            Object::BuilinObj { func: func_b } => *func == *func_b,
            _ => false,
        },
        Object::ErrorObj(x) => match b {
            Object::ErrorObj(y) => *x == *y,
            _ => false,
        },
    }
}

/// Whether two environments are the same: scope by scope, the same names
/// bound to the same values.
pub fn same_environment(a: &Environment, b: &Environment) -> (res: bool)
    ensures
        res == (a@ == b@),
    decreases *a,
{
    proof {
        use_type_invariant(a);
        lemma_chain(*a);
        lemma_chain(*b);
    }
    if !covered(&a.store, &b.store) {
        return false;
    }
    let mut j: usize = 0;
    while j < b.store.len()
        invariant
            j <= b.store.len(),
            forall|k: int| 0 <= k < j ==> bindings_of(a.store@).contains_key(#[trigger] b.store[k].name@),
        decreases b.store.len() - j,
    {
        match find(&a.store, &b.store[j].name) {
            Some(at) => {
                proof {
                    lemma_last_match(a.store@, at as int);
                }
            },
            None => {
                proof {
                    lemma_no_match(a.store@, b.store[j as int].name@);
                    lemma_entry_has_key(b.store@, j as int);
                    assert(bindings_of(a.store@) != bindings_of(b.store@));
                    assert(a@[0] != b@[0]);
                }
                return false;
            },
        }
        j += 1;
    }
    assert forall|name: Seq<char>| #[trigger] bindings_of(b.store@).contains_key(name) implies bindings_of(
        a.store@,
    ).contains_key(name) by {
        lemma_key_has_entry(b.store@, name);
        let k = choose|k: int| 0 <= k < b.store.len() && b.store[k].name@ == name;
        assert(bindings_of(a.store@).contains_key(b.store[k].name@));
    }
    assert(bindings_of(a.store@) =~= bindings_of(b.store@));
    match &a.outer {
        Some(parent_a) => match &b.outer {
            Some(parent_b) => {
                proof {
                    lemma_chain(**parent_a);
                    lemma_chain(**parent_b);
                }
                same_environment(parent_a, parent_b)
            },
            None => {
                proof {
                    lemma_chain(**parent_a);
                }
                false
            },
        },
        None => match &b.outer {
            Some(parent_b) => {
                proof {
                    lemma_chain(**parent_b);
                }
                false
            },
            None => true,
        },
    }
}

impl PartialEq for Object {
    fn eq(&self, other: &Self) -> (res: bool) {
        same_object(self, other)
    }
}

impl vstd::std_specs::cmp::PartialEqSpecImpl for Object {
    open spec fn obeys_eq_spec() -> bool {
        true
    }

    open spec fn eq_spec(&self, other: &Self) -> bool {
        self@ == other@
    }
}

impl PartialEq for Environment {
    fn eq(&self, other: &Self) -> (res: bool) {
        same_environment(self, other)
    }
}

impl vstd::std_specs::cmp::PartialEqSpecImpl for Environment {
    open spec fn obeys_eq_spec() -> bool {
        true
    }

    open spec fn eq_spec(&self, other: &Self) -> bool {
        self@ == other@
    }
}

impl Clone for Object {
    fn clone(&self) -> (res: Self)
        ensures
            res@ == self@,
    {
        copy_object(self)
    }
}

impl Clone for Environment {
    fn clone(&self) -> (res: Self)
        ensures
            res@ == self@,
    {
        copy_environment(self)
    }
}

impl Object {
    /// The text that the language shows for this value: an integer in
    /// decimal, a boolean as `true` or `false`, a string or an error as its
    /// own text, a return signal as the value it carries, `null` for the
    /// absent value, and nothing for a function or a builtin.
    pub fn inspect(&self) -> (res: String)
        ensures
            res@ == inspect_text(self@),
        decreases *self,
    {
        match self {
            Object::IntegerObj(i) => int_to_text(*i),
            Object::BooleanObj(b) => if *b {
                String::from_str("true")
            } else {
                String::from_str("false")
            },
            Object::ReturnObj(inner) => inner.inspect(),
            Object::StringObj(s) => s.clone(),
            Object::ErrorObj(message) => message.clone(),
            Object::Null => String::from_str("null"),
            _ => String::new(),
        }
    }

    /// The tag that error messages use for this value's type. Only integers
    /// and booleans have one of their own so far; every other value reports
    /// `NOT_DEFINED`.
    pub fn type_tag(&self) -> (res: &str)
        ensures
            res@ == tag_text(self@),
    {
        match self {
            Object::IntegerObj(_) => "INTEGER",
            Object::BooleanObj(_) => "BOOLEAN",
            _ => "NOT_DEFINED",
        }
    }
}

impl Environment {
    /// A scope binds each name at most once.
    #[verifier::type_invariant]
    spec fn unique_names(self) -> bool {
        distinct_names(self.store@)
    }

    /// Every environment has a scope of its own at the head of its chain.
    pub proof fn lemma_has_scope(&self)
        ensures
            self@.len() > 0,
    {
        lemma_chain(*self);
    }

    /// The global scope: nothing bound, nothing around it.
    pub fn new() -> (res: Self)
        ensures
            res@ == seq![Map::<Seq<char>, ObjectView>::empty()],
    {
        let res = Environment { store: Vec::new(), outer: None };
        proof {
            lemma_chain(res);
        }
        assert(res@ =~= seq![Map::<Seq<char>, ObjectView>::empty()]);
        res
    }

    /// Looks `name` up in this scope, then in each enclosing scope in turn,
    /// and returns the first binding found. The builtins are not consulted.
    pub fn get(&self, name: &String) -> (res: Option<Object>)
        ensures
            found(res) == resolve(self@, name@),
        decreases *self,
    {
        proof {
            lemma_chain(*self);
        }
        match find(&self.store, name) {
            Some(i) => {
                proof {
                    lemma_last_match(self.store@, i as int);
                }
                Some(copy_object(&self.store[i].value))
            },
            None => {
                proof {
                    lemma_no_match(self.store@, name@);
                }
                match &self.outer {
                    Some(parent) => parent.get(name),
                    None => {
                        assert(resolve(self@.skip(1), name@) is None);
                        None
                    },
                }
            },
        }
    }

    /// Binds `name` to `val` in this scope, in place of what the scope held
    /// under that name. No enclosing scope changes.
    pub fn set(&mut self, name: String, val: Object)
        ensures
            final(self)@ == bind(old(self)@, name@, val@),
    {
        let binding = Binding { name, value: val };
        proof {
            use_type_invariant(&*self);
            lemma_chain(*self);
        }
        let mut store: Vec<Binding> = Vec::new();
        std::mem::swap(&mut store, &mut self.store);
        match find(&store, &binding.name) {
            Some(i) => {
                proof {
                    lemma_replace(store@, i as int, binding);
                }
                store.set(i, binding);
            },
            None => {
                assert(store@.push(binding).drop_last() =~= store@);
                store.push(binding);
            },
        }
        self.store = store;
        proof {
            lemma_chain(*self);
        }
        assert(self@ =~= bind(old(self)@, name@, val@));
    }

    /// Resolves `name` against the builtins, whatever this scope or the
    /// scopes around it bind.
    pub fn get_builins(&self, name: &String) -> (res: Option<Object>)
        ensures
            found(res) == match builtin_named(name@) {
                Some(func) => Some(ObjectView::Builtin(func)),
                None => None,
            },
    {
        match lookup(name) {
            Some(func) => Some(Object::BuilinObj { func }),
            None => None,
        }
    }

    /// A fresh scope inside `outer_env`: it binds nothing itself and sees
    /// every binding that `outer_env` sees at this moment.
    pub fn new_enclosed_environment(outer_env: &Environment) -> (res: Environment)
        ensures
            res@ == enclose(outer_env@),
    {
        let res = Environment {
            store: Vec::new(),
            outer: Some(Box::new(copy_environment(outer_env))),
        };
        proof {
            lemma_chain(res);
        }
        assert(res@ =~= enclose(outer_env@));
        res
    }
}

} // verus!

//! The Expression Context: a single mutable scripting environment, rebuilt
//! (overwritten, not recreated) once per row, against which the row filter
//! and the column transforms are evaluated.

use vstd::prelude::*;

verus! {

#[verifier::external_type_specification]
#[verifier::external_body]
pub struct ExLua(rlua::Lua);

/// Relies on `rlua::Lua::new` (mlua behind it) to produce a fresh scripting
/// state with nothing bound by this library yet.
#[verifier::external_body]
fn lua_new() -> rlua::Lua {
    rlua::Lua::new()
}

/// Relies on mlua's `Table::set` on `Lua::globals`: installs `value` under
/// the global variable `name`. Whether it succeeds depends on the scripting
/// state, so nothing is promised of the outcome.
#[verifier::external_body]
fn lua_set_global(lua: &rlua::Lua, name: &str, value: &str) -> (r: Result<(), ()>) {
    match lua.globals().set(name, value) {
        Ok(()) => Ok(()),
        Err(_) => Err(()),
    }
}

/// Relies on mlua's `Chunk::eval::<bool>` via `Lua::load`: evaluates the
/// expression in the current scripting state. The outcome depends on that
/// state and on the expression's own effects, so nothing is promised of it.
#[verifier::external_body]
fn lua_eval_bool(lua: &rlua::Lua, expr: &str) -> (r: Result<bool, ()>) {
    match lua.load(expr).eval::<bool>() {
        Ok(b) => Ok(b),
        Err(_) => Err(()),
    }
}

/// Relies on mlua's `Chunk::eval::<String>` via `Lua::load`: evaluates the
/// expression in the current scripting state, expecting a string result. On
/// failure the scripting engine's own report is handed back as text. The
/// outcome depends on the state, so nothing is promised of it.
#[verifier::external_body]
fn lua_eval_string(lua: &rlua::Lua, expr: &str) -> (r: Result<String, String>) {
    match lua.load(expr).eval::<String>() {
        Ok(s) => Ok(s),
        Err(e) => Err(format!("{:?}", e)),
    }
}

/// The per-row variable environment exposed to embedded expressions. Its
/// view is the map of bindings this library has successfully installed:
/// expressions evaluated against the context may themselves write to the
/// underlying scripting state, but never through this interface.
pub struct ExprContext {
    lua: rlua::Lua,
    bound: Ghost<Map<Seq<char>, Seq<char>>>,
}

impl View for ExprContext {
    type V = Map<Seq<char>, Seq<char>>;

    closed spec fn view(&self) -> Map<Seq<char>, Seq<char>> {
        self.bound@
    }
}

impl ExprContext {
    /// A fresh context with no bindings installed.
    pub fn new() -> (c: ExprContext)
        ensures
            c@ == Map::<Seq<char>, Seq<char>>::empty(),
    {
        ExprContext { lua: lua_new(), bound: Ghost(Map::empty()) }
    }

    /// Binds `value` under the variable `name`, overwriting any earlier
    /// binding of that name. On failure the recorded bindings are unchanged.
    pub fn set_var(&mut self, name: &str, value: &str) -> (r: Result<(), ()>)
        ensures
            r is Ok ==> final (self)@ == old(self)@.insert(name@, value@),
            r is Err ==> final (self)@ == old(self)@,
    {
        match lua_set_global(&self.lua, name, value) {
            Ok(()) => {
                proof {
                    self.bound@ = self.bound@.insert(name@, value@);
                }
                Ok(())
            },
            Err(()) => Err(()),
        }
    }

    /// Evaluates a filter expression against the current bindings, expecting
    /// a boolean. The outcome depends on the scripting state.
    pub fn eval_bool(&self, expr: &str) -> Result<bool, ()> {
        lua_eval_bool(&self.lua, expr)
    }

    /// Evaluates a transform expression against the current bindings,
    /// expecting a string. The outcome depends on the scripting state.
    pub fn eval_string(&self, expr: &str) -> Result<String, String> {
        lua_eval_string(&self.lua, expr)
    }
}

} // verus!

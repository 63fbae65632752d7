use std::sync::Arc;
use vstd::prelude::*;

verus! {

/// `rlua::Context`: the scripting environment as a call into it sees it. Opaque.
#[verifier::external_type_specification]
#[verifier::external_body]
pub struct ExContext<'lua>(rlua::Context<'lua>);

/// `rlua::Value`: a value of the scripting environment. Opaque: see [`peel`].
#[verifier::external_type_specification]
#[verifier::external_body]
pub struct ExLuaValue<'lua>(rlua::Value<'lua>);

/// `rlua::Table`: a handle to a table of the scripting environment. Opaque.
#[verifier::external_type_specification]
#[verifier::external_body]
pub struct ExTable<'lua>(rlua::Table<'lua>);

/// `rlua::Function`: a handle to a function of the scripting environment. Opaque.
#[verifier::external_type_specification]
#[verifier::external_body]
pub struct ExFunction<'lua>(rlua::Function<'lua>);

/// `rlua::String`: a handle to a string of the scripting environment. Opaque.
#[verifier::external_type_specification]
#[verifier::external_body]
pub struct ExLuaString<'lua>(rlua::String<'lua>);

/// `rlua::RegistryKey`: the key of a value that the environment keeps alive. Opaque.
#[verifier::external_type_specification]
#[verifier::external_body]
pub struct ExRegistryKey(rlua::RegistryKey);

/// `rlua::Error`: an error that the scripting environment raised. Opaque.
#[verifier::external_type_specification]
#[verifier::external_body]
pub struct ExLuaError(rlua::Error);

/// `rlua::TablePairs`: a walk over the key/value pairs of a table, one pair
/// at a time. Opaque.
#[verifier::external_type_specification]
#[verifier::external_body]
#[verifier::reject_recursive_types(K)]
#[verifier::reject_recursive_types(V)]
pub struct ExTablePairs<'lua, K, V>(rlua::TablePairs<'lua, K, V>);

/// A durable reference to a function that lives in the scripting environment.
pub struct FunctionRef {
    key: Arc<rlua::RegistryKey>,
}

impl FunctionRef {
    /// Another reference to the same function.
    pub fn duplicate(&self) -> (copy: FunctionRef)
        ensures
            copy.held() == self.held(),
    {
        FunctionRef { key: self.key.clone() }
    }

    pub(crate) fn from_key(key: rlua::RegistryKey) -> (made: FunctionRef)
        ensures
            made.held() == key,
    {
        FunctionRef { key: Arc::new(key) }
    }

    pub(crate) fn key(&self) -> (key: &rlua::RegistryKey)
        ensures
            *key == self.held(),
    {
        &self.key
    }

    /// The registry key under which the environment keeps the function.
    pub closed spec fn held(&self) -> rlua::RegistryKey {
        *self.key
    }
}

/// One level of a script value: its kind, with the payload of a scalar as a
/// plain value and that of anything else as the handle it came with.
pub(crate) enum Peeled<'lua> {
    Nil,
    Bool(bool),
    Int(i64),
    Float(u64),
    Str(rlua::String<'lua>),
    Table(rlua::Table<'lua>),
    Function(rlua::Function<'lua>),
    Other,
}

/// One step of a walk over a table: the next key and value, the end of the
/// table, or an error of the environment.
pub(crate) enum Step<'lua> {
    Pair(rlua::Value<'lua>, rlua::Value<'lua>),
    End,
    Failed,
}

impl<'lua> Peeled<'lua> {
    /// The table's handle, where this is a table.
    pub(crate) fn into_table(self) -> (r: Option<rlua::Table<'lua>>)
        ensures
            r == (match self {
                Peeled::Table(table) => Some(table),
                _ => None,
            }),
    {
        match self {
            Peeled::Table(table) => Some(table),
            _ => None,
        }
    }

    /// The function's handle, where this is a function.
    pub(crate) fn into_function(self) -> (r: Option<rlua::Function<'lua>>)
        ensures
            r == (match self {
                Peeled::Function(function) => Some(function),
                _ => None,
            }),
    {
        match self {
            Peeled::Function(function) => Some(function),
            _ => None,
        }
    }
}

/// Tells the variants of `rlua::Value` apart. A number comes out as its bit
/// pattern; light userdata, threads, userdata and errors come out as `Other`.
/// Nothing is claimed of the result.
#[verifier::external_body]
pub(crate) fn peel<'lua>(value: rlua::Value<'lua>) -> Peeled<'lua> {
    match value {
        rlua::Value::Nil => Peeled::Nil,
        rlua::Value::Boolean(b) => Peeled::Bool(b),
        rlua::Value::Integer(i) => Peeled::Int(i),
        rlua::Value::Number(n) => Peeled::Float(n.to_bits()),
        rlua::Value::String(s) => Peeled::Str(s),
        rlua::Value::Table(t) => Peeled::Table(t),
        rlua::Value::Function(f) => Peeled::Function(f),
        _ => Peeled::Other,
    }
}

/// Builds the `rlua::Value` of the matching variant; `Other` becomes nil.
/// Nothing is claimed of the result.
#[verifier::external_body]
pub(crate) fn wrap<'lua>(peeled: Peeled<'lua>) -> rlua::Value<'lua> {
    match peeled {
        Peeled::Nil => rlua::Value::Nil,
        Peeled::Bool(b) => rlua::Value::Boolean(b),
        Peeled::Int(i) => rlua::Value::Integer(i),
        Peeled::Float(bits) => rlua::Value::Number(rlua::Number::from_bits(bits)),
        Peeled::Str(s) => rlua::Value::String(s),
        Peeled::Table(t) => rlua::Value::Table(t),
        Peeled::Function(f) => rlua::Value::Function(f),
        Peeled::Other => rlua::Value::Nil,
    }
}

/// `rlua::String::to_str`: the text of a script string, `None` where it is
/// not valid UTF-8. Nothing is claimed of the text.
#[verifier::external_body]
pub(crate) fn text_of<'lua>(s: &rlua::String<'lua>) -> Option<String> {
    s.to_str().ok().map(String::from)
}

/// `rlua::Context::create_string`: a script string holding `s`, `None` where
/// the environment reports an error.
#[verifier::external_body]
pub(crate) fn new_string<'lua>(ctx: rlua::Context<'lua>, s: &str) -> Option<rlua::String<'lua>> {
    ctx.create_string(s).ok()
}

/// `rlua::Context::create_table`: a new empty table, `None` where the
/// environment reports an error.
#[verifier::external_body]
pub(crate) fn new_table<'lua>(ctx: rlua::Context<'lua>) -> Option<rlua::Table<'lua>> {
    ctx.create_table().ok()
}

/// `rlua::Table::raw_set`: stores `value` under `key` without metamethods.
/// Returns whether the environment accepted it (a nil or NaN key is an
/// error).
#[verifier::external_body]
pub(crate) fn put<'lua>(
    table: &rlua::Table<'lua>,
    key: rlua::Value<'lua>,
    value: rlua::Value<'lua>,
) -> bool {
    table.raw_set(key, value).is_ok()
}

/// `rlua::Table::pairs`: a walk over the table's key/value pairs that has
/// not yet yielded any. Starting it touches nothing in the environment.
#[verifier::external_body]
pub(crate) fn walk<'lua>(table: rlua::Table<'lua>) -> rlua::TablePairs<
    'lua,
    rlua::Value<'lua>,
    rlua::Value<'lua>,
> {
    table.pairs::<rlua::Value, rlua::Value>()
}

/// `rlua::TablePairs::next`: the next pair of the walk, in the order in
/// which the environment walks the table; `End` where there is none left,
/// `Failed` where the environment reports an error. Nothing is claimed of
/// the pair, nor of how many there are.
#[verifier::external_body]
pub(crate) fn next_pair<'lua>(
    pairs: &mut rlua::TablePairs<'lua, rlua::Value<'lua>, rlua::Value<'lua>>,
) -> Step<'lua> {
    match pairs.next() {
        Some(Ok((key, value))) => Step::Pair(key, value),
        Some(Err(_)) => Step::Failed,
        None => Step::End,
    }
}

/// `rlua::Table::get` with a string key: what the table yields for `name`
/// (nil where it has no such key), `None` where the lookup raises an error.
#[verifier::external_body]
pub(crate) fn member<'lua>(table: &rlua::Table<'lua>, name: &str) -> Option<rlua::Value<'lua>> {
    table.get::<_, rlua::Value>(name).ok()
}

/// `rlua::Context::registry_value`: the value kept under `key`, `None` where
/// the key belongs to another environment.
#[verifier::external_body]
pub(crate) fn recall<'lua>(ctx: rlua::Context<'lua>, key: &rlua::RegistryKey) -> Option<
    rlua::Value<'lua>,
> {
    ctx.registry_value::<rlua::Value>(key).ok()
}

/// `rlua::Context::create_registry_value`: keeps `value` alive in the
/// environment's registry and returns its key, `None` on an error.
#[verifier::external_body]
pub(crate) fn hold<'lua>(ctx: rlua::Context<'lua>, value: rlua::Value<'lua>) -> Option<
    rlua::RegistryKey,
> {
    ctx.create_registry_value(value).ok()
}

/// `rlua::Function::call`: calls the function with `args` in order and
/// returns all its results in order, `None` where the call raises an error.
/// Nothing is claimed of the results: they depend on the script.
#[verifier::external_body]
pub(crate) fn invoke<'lua>(function: &rlua::Function<'lua>, args: Vec<rlua::Value<'lua>>) -> Option<
    Vec<rlua::Value<'lua>>,
> {
    function.call::<_, rlua::MultiValue>(rlua::MultiValue::from_vec(args)).ok().map(
        rlua::MultiValue::into_vec,
    )
}

/// `rlua::Chunk::exec` on `source`: runs the chunk for its effects. Returns
/// whether it ran without an error.
#[verifier::external_body]
pub(crate) fn run<'lua>(ctx: rlua::Context<'lua>, source: &str) -> bool {
    ctx.load(source).exec().is_ok()
}

/// `rlua::Chunk::eval` on `source`: the first value that the chunk evaluates
/// to, or the error that the environment raised.
#[verifier::external_body]
pub(crate) fn evaluate<'lua>(ctx: rlua::Context<'lua>, source: &str) -> Result<
    rlua::Value<'lua>,
    rlua::Error,
> {
    ctx.load(source).eval::<rlua::Value>()
}

/// The text that `Display` gives for the binary64 number with the bit
/// pattern `bits`.
pub uninterp spec fn number_text(bits: u64) -> Seq<char>;

/// `rlua::Number`'s `to_string`: the text that `Display` gives for the number
/// with the bit pattern `bits`, which depends on the number alone.
#[verifier::external_body]
pub(crate) fn print_number(bits: u64) -> (text: String)
    ensures
        text@ == number_text(bits),
{
    rlua::Number::from_bits(bits).to_string()
}

/// The text that `Debug` gives for an `rlua::Value`. Nothing is claimed of
/// the text.
#[verifier::external_body]
pub(crate) fn debug_text<'lua>(value: &rlua::Value<'lua>) -> String {
    format!("{:?}", value)
}

/// The text that `Display` gives for an `rlua::Error`. Nothing is claimed of
/// the text.
#[verifier::external_body]
pub(crate) fn error_text(error: &rlua::Error) -> String {
    error.to_string()
}

} // verus!

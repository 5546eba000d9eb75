use vstd::prelude::*;
use vstd::string::StringExecFns;
use crate::abi_type::{parse_type, type_label, Type};
use crate::bignat::pow256;
use crate::schema::{graph_is_sound, graph_sound, parse_type_graph, type_graph_of};
use crate::decimal::{canonical_decimal, decimal, lemma_parse_canonical, parse_unsigned, parse_unsigned_spec, str_eq, u128_to_decimal, IntErrorKind};

verus! {

/// A function as an ABI document declares it: its name and the type names of
/// its parameters, in order.
#[derive(Debug, Clone, PartialEq, Eq)]
pub struct AbiFunction {
    pub name: String,
    pub input_types: Vec<String>,
}

/// A value read for a parameter, tagged with its type.
#[derive(Debug, Clone, Copy, PartialEq, Eq, Structural)]
pub enum Token {
    Unit,
    U8(u8),
    U16(u16),
    U32(u32),
    U64(u64),
    Bool(bool),
}

/// Why call data could not be built.
#[derive(Debug, Clone, PartialEq, Eq)]
pub enum CallError {
    /// The ABI document is not well formed.
    Schema(String),
    /// The ABI document declares no `main` function.
    MissingMain,
    /// A parameter of `main` has a type name that is not supported.
    UnsupportedTypeName(String),
    /// A parameter type is recognised but cannot take a value yet.
    UnsupportedType(Type),
    /// The number of values differs from the number of parameters.
    ArgCount { expected: usize, provided: usize },
    /// A value is not an integer of its parameter's width.
    InvalidInteger(IntErrorKind),
    /// A value is neither `true` nor `false`.
    InvalidBool,
}

/// The token that text `v` gives for a parameter of type `t`.
pub open spec fn token_of(t: Type, v: Seq<char>) -> Result<Token, CallError> {
    match t {
        Type::Unit => Ok(Token::Unit),
        Type::U8 => match parse_unsigned_spec(v, 0xff) {
            Ok(n) => Ok(Token::U8(n as u8)),
            Err(e) => Err(CallError::InvalidInteger(e)),
        },
        Type::U16 => match parse_unsigned_spec(v, 0xffff) {
            Ok(n) => Ok(Token::U16(n as u16)),
            Err(e) => Err(CallError::InvalidInteger(e)),
        },
        Type::U32 => match parse_unsigned_spec(v, 0xffff_ffff) {
            Ok(n) => Ok(Token::U32(n as u32)),
            Err(e) => Err(CallError::InvalidInteger(e)),
        },
        Type::U64 => match parse_unsigned_spec(v, 0xffff_ffff_ffff_ffff) {
            Ok(n) => Ok(Token::U64(n as u64)),
            Err(e) => Err(CallError::InvalidInteger(e)),
        },
        Type::Bool => if v == "true"@ {
            Ok(Token::Bool(true))
        } else if v == "false"@ {
            Ok(Token::Bool(false))
        } else {
            Err(CallError::InvalidBool)
        },
        _ => Err(CallError::UnsupportedType(t)),
    }
}

/// The tokens for values `vs` of types `ts`, or the failure of the first
/// value that fails.
pub open spec fn tokens_of(ts: Seq<Type>, vs: Seq<Seq<char>>) -> Result<Seq<Token>, CallError>
    recommends
        ts.len() == vs.len(),
    decreases ts.len(),
{
    if ts.len() == 0 {
        Ok(Seq::empty())
    } else {
        match tokens_of(ts.drop_last(), vs.take(ts.len() - 1)) {
            Err(e) => Err(e),
            Ok(prefix) => match token_of(ts.last(), vs[ts.len() - 1]) {
                Err(e) => Err(e),
                Ok(t) => Ok(prefix.push(t)),
            },
        }
    }
}

/// `n` as one 8-byte big-endian word.
pub open spec fn word(n: nat) -> Seq<u8> {
    Seq::new(8, |i: int| ((n / pow256((7 - i) as nat)) % 256) as u8)
}

/// The bytes a token is encoded as; the unit value takes none.
pub open spec fn token_bytes(t: Token) -> Seq<u8> {
    match t {
        Token::Unit => Seq::empty(),
        Token::U8(v) => word(v as nat),
        Token::U16(v) => word(v as nat),
        Token::U32(v) => word(v as nat),
        Token::U64(v) => word(v as nat),
        Token::Bool(b) => word(if b { 1 } else { 0 }),
    }
}

/// The encoded tokens, one after another.
pub open spec fn encoding(ts: Seq<Token>) -> Seq<u8>
    decreases ts.len(),
{
    if ts.len() == 0 {
        Seq::empty()
    } else {
        encoding(ts.drop_last()) + token_bytes(ts.last())
    }
}

/// The views of the argument texts.
pub open spec fn texts(values: Seq<&str>) -> Seq<Seq<char>> {
    values.map_values(|s: &str| s@)
}

impl Token {
    /// Reads `value` as a value of `arg_type`.
    pub fn from_type_and_value(arg_type: &Type, value: &str) -> (r: Result<Token, CallError>)
        ensures
            r == token_of(*arg_type, value@),
    {
        match arg_type {
            Type::Unit => Ok(Token::Unit),
            Type::U8 => match parse_unsigned(value, 0xff) {
                Ok(n) => Ok(Token::U8(n as u8)),
                Err(e) => Err(CallError::InvalidInteger(e)),
            },
            Type::U16 => match parse_unsigned(value, 0xffff) {
                Ok(n) => Ok(Token::U16(n as u16)),
                Err(e) => Err(CallError::InvalidInteger(e)),
            },
            Type::U32 => match parse_unsigned(value, 0xffff_ffff) {
                Ok(n) => Ok(Token::U32(n as u32)),
                Err(e) => Err(CallError::InvalidInteger(e)),
            },
            Type::U64 => match parse_unsigned(value, 0xffff_ffff_ffff_ffff) {
                Ok(n) => Ok(Token::U64(n)),
                Err(e) => Err(CallError::InvalidInteger(e)),
            },
            Type::Bool => if str_eq(value, "true") {
                Ok(Token::Bool(true))
            } else if str_eq(value, "false") {
                Ok(Token::Bool(false))
            } else {
                Err(CallError::InvalidBool)
            },
            _ => Err(CallError::UnsupportedType(*arg_type)),
        }
    }
}

/// Whether a token takes any bytes.
pub open spec fn is_unit(t: Token) -> bool {
    t is Unit
}

/// No token is the unit value.
pub open spec fn no_unit(ts: Seq<Token>) -> bool {
    forall|i: int| 0 <= i < ts.len() ==> !is_unit(#[trigger] ts[i])
}

/// A function of an ABI document as plain values: its name and the type
/// names of its parameters.
pub open spec fn function_view(f: AbiFunction) -> (Seq<char>, Seq<Seq<char>>) {
    (f.name@, f.input_types@.map_values(|s: String| s@))
}

/// The functions that the ABI document `json` declares, in order, or `None`
/// where it is not a well-formed document.
pub uninterp spec fn abi_functions_of(json: Seq<char>) -> Option<Seq<(Seq<char>, Seq<Seq<char>>)>>;

/// Relies on `fuel_abi_types::abi::full_program::FullProgramABI::from_json_abi`:
/// a document it accepts yields its functions in order, each with its name and
/// the type names of its parameters; the outcome depends on the text alone.
/// It looks each type id up with `unwrap` and expands types recursively, so it
/// is only handed documents whose type references are sound.
#[verifier::external_body]
fn parse_abi_functions(json: &str) -> (r: Result<Vec<AbiFunction>, String>)
    requires
        type_graph_of(json@) matches Some(g) && graph_sound(g),
    ensures
        match abi_functions_of(json@) {
            Some(fs) => r is Ok && functions_view(r->Ok_0@) == fs,
            None => r is Err,
        },
{
    let abi = fuel_abi_types::abi::full_program::FullProgramABI::from_json_abi(json);
    let abi = abi.map_err(|e| e.to_string())?;
    Ok(abi.functions.iter().map(|f| AbiFunction {
        name: f.name().to_string(),
        input_types: f.inputs().iter().map(|i| i.type_decl.type_field.clone()).collect(),
    }).collect())
}

/// Relies on `fuels_core::abi_encoder::ABIEncoder::encode` and
/// `fuels_types::unresolved_bytes::UnresolvedBytes::resolve`: each integer or
/// boolean token is one big-endian 8-byte word, inline, so resolving at any
/// offset gives the words one after another; such tokens never fail. Resolving
/// adds the offset to the length of the words, which must fit in a `u64`.
#[verifier::external_body]
fn encode_resolved(tokens: &Vec<Token>, offset: u64) -> (r: Result<Vec<u8>, String>)
    requires
        no_unit(tokens@),
        offset as int + 8 * tokens@.len() <= u64::MAX,
    ensures
        r is Ok,
        r->Ok_0@ == encoding(tokens@),
{
    let sdk: Vec<fuels_types::Token> = tokens.iter().map(|t| match *t {
        Token::Unit => fuels_types::Token::Unit,
        Token::U8(v) => fuels_types::Token::U8(v),
        Token::U16(v) => fuels_types::Token::U16(v),
        Token::U32(v) => fuels_types::Token::U32(v),
        Token::U64(v) => fuels_types::Token::U64(v),
        Token::Bool(v) => fuels_types::Token::Bool(v),
    }).collect();
    let bytes = fuels_core::abi_encoder::ABIEncoder::encode(&sdk).map_err(|e| e.to_string())?;
    Ok(bytes.resolve(offset))
}

/// Arguments read against their parameter types, ready to be encoded once the
/// address they are loaded at is known.
#[derive(Debug, Clone, PartialEq, Eq)]
pub struct CallData {
    tokens: Vec<Token>,
}

impl View for CallData {
    type V = Seq<Token>;

    closed spec fn view(&self) -> Seq<Token> {
        self.tokens@
    }
}

impl CallData {
    /// The tokens, in parameter order.
    pub fn tokens(&self) -> (r: &Vec<Token>)
        ensures
            r@ == self@,
    {
        &self.tokens
    }

    /// The call data loaded at `offset`: each token's word, in order. Only
    /// fixed-size values can be held, so the offset changes nothing. The unit
    /// value takes no bytes, so it is not handed to the encoder. The load
    /// address after the words must fit in a word.
    pub fn resolve(&self, offset: u64) -> (r: Vec<u8>)
        requires
            offset as int + 8 * self@.len() <= u64::MAX,
        ensures
            r@ == encoding(self@),
    {
        let mut kept: Vec<Token> = Vec::new();
        let mut i: usize = 0;
        while i < self.tokens.len()
            invariant
                i <= self.tokens@.len(),
                encoding(kept@) == encoding(self.tokens@.take(i as int)),
                kept@.len() <= i,
                forall|j: int| 0 <= j < kept@.len() ==> !is_unit(#[trigger] kept@[j]),
            decreases self.tokens@.len() - i,
        {
            let t = self.tokens[i];
            proof {
                assert(self.tokens@.take(i + 1).drop_last() =~= self.tokens@.take(i as int));
            }
            if !matches!(t, Token::Unit) {
                proof {
                    assert(kept@.push(t).drop_last() =~= kept@);
                }
                kept.push(t);
            } else {
                assert(token_bytes(t) =~= Seq::<u8>::empty());
                assert(encoding(self.tokens@.take(i as int)) + token_bytes(t) =~= encoding(
                    self.tokens@.take(i as int),
                ));
            }
            i = i + 1;
        }
        assert(self.tokens@.take(i as int) =~= self.tokens@);
        match encode_resolved(&kept, offset) {
            Ok(bytes) => bytes,
            Err(_) => Vec::new(),
        }
    }
}

/// The parameter type names of the first function named `main`.
pub open spec fn find_main(fs: Seq<(Seq<char>, Seq<Seq<char>>)>) -> Option<Seq<Seq<char>>>
    decreases fs.len(),
{
    if fs.len() == 0 {
        None
    } else if fs[0].0 == "main"@ {
        Some(fs[0].1)
    } else {
        find_main(fs.drop_first())
    }
}

/// What a handler is built from functions `fs`: the parameter types of
/// `main`, or why there are none.
pub open spec fn handler_of(fs: Seq<(Seq<char>, Seq<Seq<char>>)>) -> Result<Seq<Type>, Option<Seq<char>>> {
    match find_main(fs) {
        None => Err(None),
        Some(names) => match types_of(names) {
            Ok(ts) => Ok(ts),
            Err(n) => Err(Some(n)),
        },
    }
}

/// A handler result agrees with `handler_of`.
pub open spec fn handler_matches(r: Result<ScriptCallHandler, CallError>, h: Result<Seq<Type>, Option<Seq<char>>>) -> bool {
    match h {
        Ok(ts) => r is Ok && r->Ok_0@ == ts,
        Err(None) => r == Err::<ScriptCallHandler, CallError>(CallError::MissingMain),
        Err(Some(n)) => r matches Err(CallError::UnsupportedTypeName(m)) && m@ == n,
    }
}

/// The functions as plain values.
pub open spec fn functions_view(fs: Seq<AbiFunction>) -> Seq<(Seq<char>, Seq<Seq<char>>)> {
    fs.map_values(|f: AbiFunction| function_view(f))
}

/// The types that `names` stand for, or the first name that stands for none.
pub open spec fn types_of(names: Seq<Seq<char>>) -> Result<Seq<Type>, Seq<char>>
    decreases names.len(),
{
    if names.len() == 0 {
        Ok(Seq::empty())
    } else {
        match types_of(names.drop_last()) {
            Err(n) => Err(n),
            Ok(ts) => match parse_type(names.last()) {
                Some(t) => Ok(ts.push(t)),
                None => Err(names.last()),
            },
        }
    }
}

/// The parameter types of the script's `main` function.
#[derive(Debug, Clone, PartialEq, Eq)]
pub struct ScriptCallHandler {
    main_arg_types: Vec<Type>,
}

impl View for ScriptCallHandler {
    type V = Seq<Type>;

    closed spec fn view(&self) -> Seq<Type> {
        self.main_arg_types@
    }
}

/// The input type names of a function as plain values.
pub open spec fn input_names(f: AbiFunction) -> Seq<Seq<char>> {
    f.input_types@.map_values(|s: String| s@)
}

/// Once a prefix of the values fails, all of them fail the same way.
pub proof fn lemma_tokens_error_persists(ts: Seq<Type>, vs: Seq<Seq<char>>, k: nat)
    requires
        ts.len() == vs.len(),
        k <= ts.len(),
    ensures
        tokens_of(ts.take(k as int), vs.take(k as int)) is Err ==> tokens_of(ts, vs) == tokens_of(
            ts.take(k as int),
            vs.take(k as int),
        ),
    decreases ts.len() - k,
{
    if k < ts.len() {
        lemma_tokens_error_persists(ts, vs, k + 1);
        let t1 = ts.take((k + 1) as int);
        let v1 = vs.take((k + 1) as int);
        assert(t1.drop_last() =~= ts.take(k as int));
        assert(v1.take(k as int) =~= vs.take(k as int));
    } else {
        assert(ts.take(k as int) =~= ts);
        assert(vs.take(k as int) =~= vs);
    }
}

impl ScriptCallHandler {
    /// A handler for a `main` with parameters of `main_arg_types`, in order.
    pub fn new(main_arg_types: Vec<Type>) -> (r: ScriptCallHandler)
        ensures
            r@ == main_arg_types@,
    {
        ScriptCallHandler { main_arg_types }
    }

    /// The parameter types of `main`, in order.
    pub fn main_arg_types(&self) -> (r: &Vec<Type>)
        ensures
            r@ == self@,
    {
        &self.main_arg_types
    }

    /// The handler for the functions of an ABI document: the types of the
    /// parameters of the first function named `main`. Fails when there is no
    /// such function, or on the first parameter whose type is not supported.
    pub fn from_abi_functions(functions: &Vec<AbiFunction>) -> (r: Result<ScriptCallHandler, CallError>)
        ensures
            handler_matches(r, handler_of(functions_view(functions@))),
    {
        let ghost fv = functions_view(functions@);
        let mut i: usize = 0;
        assert(fv.skip(0) =~= fv);
        while i < functions.len()
            invariant
                i <= functions@.len(),
                fv == functions_view(functions@),
                find_main(fv) == find_main(fv.skip(i as int)),
            ensures
                i <= functions@.len(),
                i < functions@.len() ==> functions@[i as int].name@ == "main"@,
                find_main(fv) == find_main(fv.skip(i as int)),
            decreases functions@.len() - i,
        {
            assert(fv.skip(i as int).drop_first() =~= fv.skip(i + 1));
            assert(fv.skip(i as int)[0] == function_view(functions@[i as int]));
            if str_eq(functions[i].name.as_str(), "main") {
                break;
            }
            i = i + 1;
        }
        if i == functions.len() {
            assert(fv.skip(i as int) =~= Seq::<(Seq<char>, Seq<Seq<char>>)>::empty());
            return Err(CallError::MissingMain);
        }
        let main = &functions[i];
        let ghost names = input_names(*main);
        assert(fv.skip(i as int)[0] == function_view(functions@[i as int]));
        assert(find_main(fv) == Some(names));
        let mut types: Vec<Type> = Vec::new();
        let mut j: usize = 0;
        assert(names.take(0) =~= Seq::<Seq<char>>::empty());
        while j < main.input_types.len()
            invariant
                i < functions@.len(),
                main == functions@[i as int],
                names == input_names(*main),
                fv == functions_view(functions@),
                find_main(fv) == Some(names),
                j <= main.input_types@.len(),
                types_of(names.take(j as int)) == Ok::<Seq<Type>, Seq<char>>(types@),
            decreases main.input_types@.len() - j,
        {
            assert(names.take(j + 1).drop_last() =~= names.take(j as int));
            match Type::try_from(&main.input_types[j]) {
                Ok(t) => {
                    types.push(t);
                },
                Err(e) => {
                    proof {
                        assert(names.take(j + 1).last() == main.input_types@[j as int]@);
                        assert(types_of(names.take(j + 1)) == Err::<Seq<Type>, Seq<char>>(e.name@));
                        lemma_types_error_persists(names, (j + 1) as nat);
                    }
                    return Err(CallError::UnsupportedTypeName(e.name));
                },
            }
            j = j + 1;
        }
        assert(names.take(j as int) =~= names);
        Ok(ScriptCallHandler { main_arg_types: types })
    }

    /// The handler for a JSON ABI document: see `from_abi_functions`. A
    /// document that does not parse, that refers to an undeclared type id or
    /// whose types refer back to themselves gives `CallError::Schema`.
    pub fn from_json_abi_str(json_abi_str: &str) -> (r: Result<ScriptCallHandler, CallError>)
        ensures
            match type_graph_of(json_abi_str@) {
                None => r is Err && r->Err_0 is Schema,
                Some(g) => if !graph_sound(g) {
                    r is Err && r->Err_0 is Schema
                } else {
                    match abi_functions_of(json_abi_str@) {
                        None => r is Err && r->Err_0 is Schema,
                        Some(fs) => handler_matches(r, handler_of(fs)),
                    }
                },
            },
    {
        let graph = match parse_type_graph(json_abi_str) {
            Err(message) => {
                return Err(CallError::Schema(message));
            },
            Ok(graph) => graph,
        };
        if !graph_is_sound(&graph) {
            return Err(
                CallError::Schema(
                    String::from_str("a type id is not declared, or a type refers back to itself"),
                ),
            );
        }
        match parse_abi_functions(json_abi_str) {
            Err(message) => Err(CallError::Schema(message)),
            Ok(functions) => ScriptCallHandler::from_abi_functions(&functions),
        }
    }

    /// Reads each value against its parameter's type, in order. The number of
    /// values is checked before any of them is read.
    pub fn encode_arguments(&self, values: &[&str]) -> (r: Result<CallData, CallError>)
        ensures
            values@.len() != self@.len() ==> r == Err::<CallData, CallError>(
                CallError::ArgCount { expected: self@.len() as usize, provided: values@.len() as usize },
            ),
            values@.len() == self@.len() ==> match tokens_of(self@, texts(values@)) {
                Ok(ts) => r is Ok && r->Ok_0@ == ts,
                Err(e) => r == Err::<CallData, CallError>(e),
            },
    {
        let expected = self.main_arg_types.len();
        let provided = values.len();
        if expected != provided {
            return Err(CallError::ArgCount { expected, provided });
        }
        let ghost ts = self@;
        let ghost vs = texts(values@);
        let mut tokens: Vec<Token> = Vec::new();
        let mut i: usize = 0;
        assert(ts.take(0) =~= Seq::<Type>::empty());
        while i < expected
            invariant
                expected == ts.len() == vs.len() == values@.len(),
                ts == self.main_arg_types@,
                vs == texts(values@),
                i <= expected,
                tokens_of(ts.take(i as int), vs.take(i as int)) == Ok::<Seq<Token>, CallError>(tokens@),
            decreases expected - i,
        {
            proof {
                assert(ts.take(i + 1).drop_last() =~= ts.take(i as int));
                assert(vs.take(i + 1).take(i as int) =~= vs.take(i as int));
            }
            match Token::from_type_and_value(&self.main_arg_types[i], values[i]) {
                Ok(t) => {
                    tokens.push(t);
                },
                Err(e) => {
                    proof {
                        lemma_tokens_error_persists(ts, vs, (i + 1) as nat);
                    }
                    return Err(e);
                },
            }
            i = i + 1;
        }
        assert(ts.take(i as int) =~= ts);
        assert(vs.take(i as int) =~= vs);
        Ok(CallData { tokens })
    }
}

/// Once a prefix of the names fails, all of them fail at the same name.
pub proof fn lemma_types_error_persists(names: Seq<Seq<char>>, k: nat)
    requires
        k <= names.len(),
    ensures
        types_of(names.take(k as int)) is Err ==> types_of(names) == types_of(names.take(k as int)),
    decreases names.len() - k,
{
    if k < names.len() {
        lemma_types_error_persists(names, k + 1);
        assert(names.take((k + 1) as int).drop_last() =~= names.take(k as int));
    } else {
        assert(names.take(k as int) =~= names);
    }
}

/// The text std gives for each integer parse failure.
pub open spec fn int_error_text(e: IntErrorKind) -> Seq<char> {
    match e {
        IntErrorKind::Empty => "cannot parse integer from empty string"@,
        IntErrorKind::InvalidDigit => "invalid digit found in string"@,
        IntErrorKind::PosOverflow => "number too large to fit in target type"@,
        IntErrorKind::NegOverflow => "number too small to fit in target type"@,
        IntErrorKind::Zero => "number would be zero for non-zero type"@,
    }
}

/// The message of an error.
pub open spec fn message_of(e: CallError) -> Seq<char> {
    match e {
        CallError::Schema(m) => m@,
        CallError::MissingMain => "every valid script needs to have a main function"@,
        CallError::UnsupportedTypeName(n) => n@ + " type is not supported."@,
        CallError::UnsupportedType(t) => type_label(t) + " is not supported."@,
        CallError::ArgCount { expected, provided } => "main function takes "@ + decimal(
            expected as nat,
        ) + " arguments, "@ + decimal(provided as nat) + " provided"@,
        CallError::InvalidInteger(k) => int_error_text(k),
        CallError::InvalidBool => "provided string was not `true` or `false`"@,
    }
}

/// The text a token is shown as: its number in decimal, or `true` / `false`.
pub open spec fn token_text(t: Token) -> Seq<char> {
    match t {
        Token::Unit => "()"@,
        Token::U8(v) => decimal(v as nat),
        Token::U16(v) => decimal(v as nat),
        Token::U32(v) => decimal(v as nat),
        Token::U64(v) => decimal(v as nat),
        Token::Bool(b) => if b { "true"@ } else { "false"@ },
    }
}

/// The largest value a parameter of an integer type takes.
pub open spec fn type_max(t: Type) -> nat {
    match t {
        Type::U8 => 0xff,
        Type::U16 => 0xffff,
        Type::U32 => 0xffff_ffff,
        _ => 0xffff_ffff_ffff_ffff,
    }
}

impl Token {
    /// The token as text: its number in decimal, or `true` / `false`.
    pub fn to_text(&self) -> (r: String)
        ensures
            r@ == token_text(*self),
    {
        match self {
            Token::Unit => String::from_str("()"),
            Token::U8(v) => u128_to_decimal(*v as u128),
            Token::U16(v) => u128_to_decimal(*v as u128),
            Token::U32(v) => u128_to_decimal(*v as u128),
            Token::U64(v) => u128_to_decimal(*v as u128),
            Token::Bool(b) => if *b {
                String::from_str("true")
            } else {
                String::from_str("false")
            },
        }
    }
}

impl CallError {
    /// The message shown for the error.
    pub fn message(&self) -> (r: String)
        ensures
            r@ == message_of(*self),
    {
        match self {
            CallError::Schema(m) => m.clone(),
            CallError::MissingMain => String::from_str("every valid script needs to have a main function"),
            CallError::UnsupportedTypeName(n) => {
                let mut m = n.clone();
                m.append(" type is not supported.");
                m
            },
            CallError::UnsupportedType(t) => {
                let mut m = String::from_str(t.label());
                m.append(" is not supported.");
                m
            },
            CallError::ArgCount { expected, provided } => {
                let mut m = String::from_str("main function takes ");
                let e = u128_to_decimal(*expected as u128);
                m.append(e.as_str());
                m.append(" arguments, ");
                let p = u128_to_decimal(*provided as u128);
                m.append(p.as_str());
                m.append(" provided");
                m
            },
            CallError::InvalidInteger(k) => match k {
                IntErrorKind::Empty => String::from_str("cannot parse integer from empty string"),
                IntErrorKind::InvalidDigit => String::from_str("invalid digit found in string"),
                IntErrorKind::PosOverflow => String::from_str("number too large to fit in target type"),
                IntErrorKind::NegOverflow => String::from_str("number too small to fit in target type"),
                IntErrorKind::Zero => String::from_str("number would be zero for non-zero type"),
            },
            CallError::InvalidBool => String::from_str("provided string was not `true` or `false`"),
        }
    }
}

/// Every in-range integer, written in decimal, reads as a token of each
/// integer type and shows as the same text; so do `true` and `false` as
/// booleans.
pub proof fn lemma_scalar_round_trip(t: Type, n: nat, b: bool)
    requires
        t is U8 || t is U16 || t is U32 || t is U64,
        n <= type_max(t),
    ensures
        token_of(t, decimal(n)) is Ok,
        token_text(token_of(t, decimal(n))->Ok_0) == decimal(n),
        token_of(Type::Bool, token_text(Token::Bool(b))) == Ok::<Token, CallError>(Token::Bool(b)),
{
    crate::decimal::lemma_decimal_round_trip(n, type_max(t));
    reveal_strlit("true");
    reveal_strlit("false");
}

/// Integer text accepted for a parameter shows, once read, in its shortest
/// form: without a `+`, without leading zeros, `"0"` where only zeros were
/// given.
pub proof fn lemma_integer_text_canonical(t: Type, v: Seq<char>)
    requires
        t is U8 || t is U16 || t is U32 || t is U64,
        token_of(t, v) is Ok,
    ensures
        token_text(token_of(t, v)->Ok_0) == canonical_decimal(v),
{
    lemma_parse_canonical(v, type_max(t));
}

/// The types that are recognised but take no value yet fail for every text,
/// with the message `"<Type> is not supported."`.
pub proof fn lemma_unsupported_types(t: Type, v: Seq<char>)
    requires
        t is Byte || t is B256 || t is Array || t is Vector || t is String || t is Struct
            || t is Enum || t is Tuple || t is RawSlice,
    ensures
        token_of(t, v) == Err::<Token, CallError>(CallError::UnsupportedType(t)),
        message_of(token_of(t, v)->Err_0) == type_label(t) + " is not supported."@,
{
}

} // verus!

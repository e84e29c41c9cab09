//! How tool declarations are named and typed: snake-case names, the JSON type of a
//! field from the text of its Rust type, the output type a tool function gives, and the
//! name and description a tool is published under.
use vstd::prelude::*;

use crate::text::{
    char_is_uppercase, char_to_lowercase, is_upper_case, lower_case_of, push_char, text_eq,
};

verus! {

/// The shape of a tool function's output type.
#[derive(Debug, Clone, Copy, PartialEq, Eq, Structural)]
pub enum OutputType {
    Option,
    Result,
    Raw,
    Unknown,
}

/// What the character at `i` becomes in snake case: an upper-case letter becomes its
/// lower case, after an underscore unless it comes first; anything else stays.
pub open spec fn snake_piece(c: char, i: int) -> Seq<char> {
    if is_upper_case(c) {
        if i != 0 {
            seq!['_'] + lower_case_of(c)
        } else {
            lower_case_of(c)
        }
    } else {
        seq![c]
    }
}

/// `s` in snake case.
pub open spec fn snake_case_of(s: Seq<char>) -> Seq<char>
    decreases s.len(),
{
    if s.len() == 0 {
        Seq::empty()
    } else {
        snake_case_of(s.drop_last()) + snake_piece(s.last(), s.len() - 1)
    }
}

/// Turns a camel-case name into snake case: `HelloWorld` becomes `hello_world`.
pub fn to_snake_case(name: &str) -> (r: String)
    ensures
        r@ == snake_case_of(name@),
{
    let n = name.unicode_len();
    let mut r = String::new();
    let mut i: usize = 0;
    while i < n
        invariant
            n == name@.len(),
            i <= n,
            r@ == snake_case_of(name@.take(i as int)),
        decreases n - i,
    {
        let ch = name.get_char(i);
        let ghost before = r@;
        if char_is_uppercase(ch) {
            if i != 0 {
                push_char(&mut r, '_');
            }
            let lower = char_to_lowercase(ch);
            let mut k: usize = 0;
            let ghost mid = r@;
            while k < lower.len()
                invariant
                    k <= lower@.len(),
                    r@ == mid + lower@.take(k as int),
                decreases lower.len() - k,
            {
                push_char(&mut r, lower[k]);
                assert(lower@.take(k + 1) =~= lower@.take(k as int).push(lower@[k as int]));
                k = k + 1;
            }
            assert(lower@.take(lower@.len() as int) =~= lower@);
            if i != 0 {
                assert(r@ =~= before + (seq!['_'] + lower_case_of(ch)));
            }
        } else {
            push_char(&mut r, ch);
        }
        assert(name@.take(i + 1).drop_last() =~= name@.take(i as int));
        assert(name@.take(i + 1).last() == ch);
        i = i + 1;
    }
    assert(name@.take(n as int) =~= name@);
    r
}

/// `s` without its spaces.
pub open spec fn without_spaces(s: Seq<char>) -> Seq<char>
    decreases s.len(),
{
    if s.len() == 0 {
        Seq::empty()
    } else {
        without_spaces(s.drop_last()) + if s.last() == ' ' {
            Seq::empty()
        } else {
            seq![s.last()]
        }
    }
}

pub open spec fn has_prefix(s: Seq<char>, p: Seq<char>) -> bool {
    p.len() <= s.len() && s.subrange(0, p.len() as int) == p
}

/// The JSON type of a field whose Rust type reads `ty` (spaces aside), whether the field
/// is required, and whether it is an array: `Option<..>` is an optional string,
/// `Vec<..>` a required array, integers and floats are numbers, `String` and `&str`
/// strings, `bool` a boolean, and anything else an object.
pub open spec fn field_type_of(ty: Seq<char>) -> (Seq<char>, bool, bool) {
    let t = without_spaces(ty);
    if has_prefix(t, "Option<"@) {
        ("string"@, false, false)
    } else if has_prefix(t, "Vec<"@) {
        ("array"@, true, true)
    } else if t == "i32"@ || t == "i64"@ || t == "u32"@ || t == "u64"@ || t == "f32"@ || t
        == "f64"@ {
        ("number"@, true, false)
    } else if t == "String"@ || t == "&str"@ {
        ("string"@, true, false)
    } else if t == "bool"@ {
        ("boolean"@, true, false)
    } else {
        ("object"@, true, false)
    }
}

/// Integers and floats are numbers: a field whose type reads `i32`, `i64`, `u32`, `u64`,
/// `f32` or `f64` (spaces aside) is a required JSON number, not an array.
pub proof fn lemma_numeric_field(ty: Seq<char>)
    requires
        without_spaces(ty) == "i32"@ || without_spaces(ty) == "i64"@ || without_spaces(ty)
            == "u32"@ || without_spaces(ty) == "u64"@ || without_spaces(ty) == "f32"@
            || without_spaces(ty) == "f64"@,
    ensures
        field_type_of(ty) == ("number"@, true, false),
{
    reveal_strlit("i32");
    reveal_strlit("i64");
    reveal_strlit("u32");
    reveal_strlit("u64");
    reveal_strlit("f32");
    reveal_strlit("f64");
    reveal_strlit("Option<");
    reveal_strlit("Vec<");
    assert(without_spaces(ty).len() == 3);
}

fn strip_spaces(s: &str) -> (r: String)
    ensures
        r@ == without_spaces(s@),
{
    let n = s.unicode_len();
    let mut r = String::new();
    let mut i: usize = 0;
    while i < n
        invariant
            n == s@.len(),
            i <= n,
            r@ == without_spaces(s@.take(i as int)),
        decreases n - i,
    {
        let c = s.get_char(i);
        if c != ' ' {
            push_char(&mut r, c);
        }
        assert(s@.take(i + 1).drop_last() =~= s@.take(i as int));
        assert(s@.take(i + 1).last() == c);
        proof {
            if c == ' ' {
                assert(r@ + Seq::<char>::empty() =~= r@);
            }
        }
        i = i + 1;
    }
    assert(s@.take(n as int) =~= s@);
    r
}

fn starts_with(s: &str, p: &str) -> (r: bool)
    ensures
        r == has_prefix(s@, p@),
{
    let n = s.unicode_len();
    let m = p.unicode_len();
    if m > n {
        return false;
    }
    let mut i: usize = 0;
    while i < m
        invariant
            n == s@.len(),
            m == p@.len(),
            m <= n,
            i <= m,
            forall|k: int| 0 <= k < i ==> s@[k] == p@[k],
        decreases m - i,
    {
        if s.get_char(i) != p.get_char(i) {
            assert(s@.subrange(0, m as int)[i as int] != p@[i as int]);
            return false;
        }
        i = i + 1;
    }
    assert(s@.subrange(0, m as int) =~= p@);
    true
}

/// The JSON type, requiredness and arrayness of a field whose Rust type reads `ty`.
pub fn field_type(ty: &str) -> (r: (&'static str, bool, bool))
    ensures
        (r.0@, r.1, r.2) == field_type_of(ty@),
{
    let t = strip_spaces(ty);
    let t = t.as_str();
    if starts_with(t, "Option<") {
        ("string", false, false)
    } else if starts_with(t, "Vec<") {
        ("array", true, true)
    } else if text_eq(t, "i32") || text_eq(t, "i64") || text_eq(t, "u32") || text_eq(t, "u64")
        || text_eq(t, "f32") || text_eq(t, "f64") {
        ("number", true, false)
    } else if text_eq(t, "String") || text_eq(t, "&str") {
        ("string", true, false)
    } else if text_eq(t, "bool") {
        ("boolean", true, false)
    } else {
        ("object", true, false)
    }
}

/// A field of a derived schema: its name, JSON type, whether it is an array, and what it is.
#[derive(Debug)]
pub struct SchemaField {
    pub name: String,
    pub json_type: &'static str,
    pub is_array: bool,
    pub desc: String,
}

pub struct SchemaFieldView {
    pub name: Seq<char>,
    pub json_type: Seq<char>,
    pub is_array: bool,
    pub desc: Seq<char>,
}

impl View for SchemaField {
    type V = SchemaFieldView;

    open spec fn view(&self) -> SchemaFieldView {
        SchemaFieldView {
            name: self.name@,
            json_type: self.json_type@,
            is_array: self.is_array,
            desc: self.desc@,
        }
    }
}

/// The schema field of a struct field `(name, Rust type, description)`.
pub open spec fn schema_field_of(f: (Seq<char>, Seq<char>, Seq<char>)) -> SchemaFieldView {
    SchemaFieldView {
        name: f.0,
        json_type: field_type_of(f.1).0,
        is_array: field_type_of(f.1).2,
        desc: f.2,
    }
}

pub open spec fn fields_view(fields: Seq<(String, String, String)>) -> Seq<(Seq<char>, Seq<char>, Seq<char>)> {
    fields.map_values(|f: (String, String, String)| (f.0@, f.1@, f.2@))
}

/// The names of the fields that a schema requires, in order: those whose type is no `Option`.
pub open spec fn required_names(fields: Seq<(Seq<char>, Seq<char>, Seq<char>)>) -> Seq<Seq<char>>
    decreases fields.len(),
{
    if fields.len() == 0 {
        Seq::empty()
    } else {
        required_names(fields.drop_last()) + if field_type_of(fields.last().1).1 {
            seq![fields.last().0]
        } else {
            Seq::empty()
        }
    }
}

/// The schema of a struct whose fields are `(name, Rust type, description)`: one schema
/// field each, in order, and the names of the required fields.
pub fn schema_of_fields(fields: &Vec<(String, String, String)>) -> (r: (Vec<SchemaField>, Vec<String>))
    ensures
        r.0@.map_values(|f: SchemaField| f@) == fields_view(fields@).map_values(
            |f: (Seq<char>, Seq<char>, Seq<char>)| schema_field_of(f),
        ),
        r.1@.map_values(|n: String| n@) == required_names(fields_view(fields@)),
{
    let ghost fv = fields_view(fields@);
    let mut props: Vec<SchemaField> = Vec::new();
    let mut required: Vec<String> = Vec::new();
    let mut i: usize = 0;
    while i < fields.len()
        invariant
            i <= fields@.len(),
            fv == fields_view(fields@),
            props@.len() == i,
            forall|k: int| 0 <= k < i ==> (#[trigger] props@[k])@ == schema_field_of(fv[k]),
            required@.map_values(|n: String| n@) == required_names(fv.take(i as int)),
        decreases fields.len() - i,
    {
        let (json_type, is_required, is_array) = field_type(fields[i].1.as_str());
        props.push(
            SchemaField {
                name: fields[i].0.clone(),
                json_type,
                is_array,
                desc: fields[i].2.clone(),
            },
        );
        proof {
            assert(fv.take(i + 1).drop_last() =~= fv.take(i as int));
            assert(fv[i as int] == (fields@[i as int].0@, fields@[i as int].1@, fields@[i as int].2@));
        }
        let ghost before = required@.map_values(|n: String| n@);
        if is_required {
            required.push(fields[i].0.clone());
            assert(required@.map_values(|n: String| n@) =~= before.push(fields@[i as int].0@));
        } else {
            assert(before + Seq::<Seq<char>>::empty() =~= before);
        }
        i = i + 1;
    }
    proof {
        assert(fv.take(fv.len() as int) =~= fv);
        assert(props@.map_values(|f: SchemaField| f@) =~= fv.map_values(
            |f: (Seq<char>, Seq<char>, Seq<char>)| schema_field_of(f),
        ));
    }
    (props, required)
}

/// The shape of a Rust type, as far as tool generation looks at it.
#[derive(Debug)]
pub enum TypeShape {
    /// A path type: the name of its last segment (none for an empty path), and its first
    /// generic argument when the last segment has angle-bracketed arguments and the first
    /// of them is a type.
    Path { last: Option<String>, first_type_arg: Option<Box<TypeShape>> },
    /// The unit type `()`.
    Unit,
    /// Any other type.
    Other,
}

/// The first type argument of `ty` when its last path segment is named `wrapper`.
pub open spec fn unwrapped_by(ty: TypeShape, wrapper: Seq<char>) -> Option<TypeShape> {
    match ty {
        TypeShape::Path { last: Some(n), first_type_arg: Some(inner) } => if n@ == wrapper {
            Some(*inner)
        } else {
            None
        },
        _ => None,
    }
}

fn unwrap_named(ty: TypeShape, wrapper: &str) -> (r: Result<TypeShape, TypeShape>)
    ensures
        match unwrapped_by(ty, wrapper@) {
            Some(inner) => r == Ok::<TypeShape, TypeShape>(inner),
            None => r == Err::<TypeShape, TypeShape>(ty),
        },
{
    match ty {
        TypeShape::Path { last: Some(n), first_type_arg: Some(inner) } => {
            if text_eq(n.as_str(), wrapper) {
                Ok(*inner)
            } else {
                Err(TypeShape::Path { last: Some(n), first_type_arg: Some(inner) })
            }
        },
        other => Err(other),
    }
}

/// The `T` of `Result<T, E>`; the type itself back when it is no `Result`.
pub fn extract_result_ok_type(ty: TypeShape) -> (r: Result<TypeShape, TypeShape>)
    ensures
        match unwrapped_by(ty, "Result"@) {
            Some(inner) => r == Ok::<TypeShape, TypeShape>(inner),
            None => r == Err::<TypeShape, TypeShape>(ty),
        },
{
    unwrap_named(ty, "Result")
}

/// The `T` of `Option<T>`; the type itself back when it is no `Option`.
pub fn extract_option_inner(ty: TypeShape) -> (r: Result<TypeShape, TypeShape>)
    ensures
        match unwrapped_by(ty, "Option"@) {
            Some(inner) => r == Ok::<TypeShape, TypeShape>(inner),
            None => r == Err::<TypeShape, TypeShape>(ty),
        },
{
    unwrap_named(ty, "Option")
}

/// The output of a tool function: its type with any `Result` and then any `Option`
/// taken off, and whether an `Option` was.
#[derive(Debug)]
pub struct OutputInfo {
    pub ty: TypeShape,
    pub is_option: bool,
}

/// The output of a function whose return type is `ret` (none when it declares none).
pub open spec fn output_info_of(ret: Option<TypeShape>) -> OutputInfo {
    match ret {
        None => OutputInfo { ty: TypeShape::Unit, is_option: false },
        Some(t) => {
            let inner = match unwrapped_by(t, "Result"@) {
                Some(ok) => ok,
                None => t,
            };
            match unwrapped_by(inner, "Option"@) {
                Some(x) => OutputInfo { ty: x, is_option: true },
                None => OutputInfo { ty: inner, is_option: false },
            }
        },
    }
}

/// The output of a function whose return type is `ret` (none when it declares none):
/// `()` without one; else the type without `Result`, then without `Option`.
pub fn generate_output_type(ret: Option<TypeShape>) -> (r: OutputInfo)
    ensures
        r == output_info_of(ret),
{
    match ret {
        None => OutputInfo { ty: TypeShape::Unit, is_option: false },
        Some(t) => {
            let inner = match extract_result_ok_type(t) {
                Ok(ok) => ok,
                Err(t) => t,
            };
            match extract_option_inner(inner) {
                Ok(x) => OutputInfo { ty: x, is_option: true },
                Err(inner) => OutputInfo { ty: inner, is_option: false },
            }
        },
    }
}

/// Why a function cannot become a tool.
#[derive(Debug, Clone, Copy, PartialEq, Eq, Structural)]
pub enum ToolFunctionError {
    /// Only async functions become tools.
    NotAsync,
    /// A tool function takes exactly one typed argument.
    RequiresInput,
}

/// Whether a function can become a tool: it is async and takes exactly one typed argument.
pub fn check_tool_function(is_async: bool, inputs: usize, first_is_typed: bool) -> (r: Result<
    (),
    ToolFunctionError,
>)
    ensures
        !is_async ==> r == Err::<(), ToolFunctionError>(ToolFunctionError::NotAsync),
        is_async && (inputs != 1 || !first_is_typed) ==> r == Err::<(), ToolFunctionError>(
            ToolFunctionError::RequiresInput,
        ),
        is_async && inputs == 1 && first_is_typed ==> r is Ok,
{
    if !is_async {
        Err(ToolFunctionError::NotAsync)
    } else if inputs != 1 || !first_is_typed {
        Err(ToolFunctionError::RequiresInput)
    } else {
        Ok(())
    }
}

/// The name and description a tool is published under: the configured name, or else
/// the function's; the configured description, or else the name.
pub fn tool_identity(fn_name: &str, name: &str, desc: &str) -> (r: (String, String))
    ensures
        r.0@ == if name@.len() > 0 {
            name@
        } else {
            fn_name@
        },
        r.1@ == if desc@.len() > 0 {
            desc@
        } else {
            r.0@
        },
{
    let tool_name = if name.unicode_len() > 0 {
        crate::text::owned(name)
    } else {
        crate::text::owned(fn_name)
    };
    let tool_desc = if desc.unicode_len() > 0 {
        crate::text::owned(desc)
    } else {
        tool_name.clone()
    };
    (tool_name, tool_desc)
}

/// How the renamed body of a function is called from its wrapper.
#[derive(Debug, Clone, Copy, PartialEq, Eq, Structural)]
pub enum CallForm {
    /// `self.name(args).await`, for a method with a receiver.
    OnSelf,
    /// `Self::name(args).await`, for an associated function.
    OnType,
    /// `name(args).await`, for a free function.
    Free,
}

/// The name a function's body moves to (`prefix` before its name), and how it is called.
pub fn rename_origin_func(prefix: &str, struct_method: bool, name: &str, has_receiver: bool) -> (r: (
    String,
    CallForm,
))
    ensures
        r.0@ == prefix@ + name@,
        r.1 == if has_receiver {
            CallForm::OnSelf
        } else if struct_method {
            CallForm::OnType
        } else {
            CallForm::Free
        },
{
    let mut new_name = crate::text::owned(prefix);
    new_name.append(name);
    let form = if has_receiver {
        CallForm::OnSelf
    } else if struct_method {
        CallForm::OnType
    } else {
        CallForm::Free
    };
    (new_name, form)
}

} // verus!

//! User-authored native binding manifests: validation of declared paths and
//! names, and lowering of their type spellings.

use super::model::{
    binding_error_text, list_mentions_reference, mentions_reference, nests_reference,
    registry_error, sort_by_path, ArgumentAdaptation,
    CallStyle, CallableBinding, CallbackEscape, CallbackKind, NativeErrorFormat,
    NativeBindings, NativeTypeBinding, Parameter, Receiver, RustLowering, TypeRef, WrapperTarget,
};
use crate::text::{
    ascii_alphabetic, ascii_alphanumeric, chars_of, is_prefix, join_chars, push_char, split_path,
    split_path_string, str_eq, str_has_prefix,
};
use vstd::prelude::*;

verus! {

/// Error reported while loading user-authored native binding metadata.
#[derive(Clone, Debug, Eq, PartialEq)]
pub struct ManifestError {
    /// Human-readable validation message.
    pub message: String,
    /// Byte range supplied by the TOML parser when available.
    pub span: Option<std::ops::Range<usize>>,
    /// Manifest path when the error came from a file.
    pub path: Option<String>,
}

/// The result, if an error, carries no TOML range and no file.
pub open spec fn plain_error<T>(r: Result<T, ManifestError>) -> bool {
    r matches Err(e) ==> e.span is None && e.path is None
}

/// The outcome of checking the manifest read from the file at `path`: the
/// bindings unchanged, or the error reported against that file.
pub fn in_manifest_file(result: Result<NativeBindings, ManifestError>, path: String) -> (r: Result<
    NativeBindings,
    ManifestError,
>)
    ensures
        result is Ok <==> r is Ok,
        result matches Ok(b) ==> r == Ok::<NativeBindings, ManifestError>(b),
        result matches Err(e) ==> r == Err::<NativeBindings, ManifestError>(
            ManifestError { message: e.message, span: e.span, path: Some(path) },
        ),
{
    match result {
        Ok(bindings) => Ok(bindings),
        Err(error) => Err(ManifestError { message: error.message, span: error.span, path: Some(path) }),
    }
}

/// The error for a manifest file at `path` that could not be read, for the
/// reason given.
pub fn read_error(path: String, reason: &str) -> (r: ManifestError)
    ensures
        r.message@ == "failed to read "@ + path@ + ": "@ + reason@,
        r.span is None,
        r.path == Some(path),
{
    let mut message = String::from_str("failed to read ");
    message.append(path.as_str());
    message.append(": ");
    message.append(reason);
    ManifestError { message, span: None, path: Some(path) }
}

impl ManifestError {
    /// An error with only a message.
    pub fn message(message: String) -> (r: Self)
        ensures
            r.message == message,
            r.span is None,
            r.path is None,
    {
        ManifestError { message, span: None, path: None }
    }

    /// An error with a message, an optional TOML span, and an optional file.
    pub fn new(message: String, span: Option<std::ops::Range<usize>>, path: Option<String>) -> (r: Self)
        ensures
            r == (ManifestError { message, span, path }),
    {
        ManifestError { message, span, path }
    }

    /// The error as it is shown to users: the manifest path, when the error
    /// came from a file, before the message.
    pub fn display_text(&self) -> (r: String)
        ensures
            r@ == match self.path {
                Some(path) => path@ + ": "@ + self.message@,
                None => self.message@,
            },
    {
        match &self.path {
            Some(path) => {
                let mut text = path.clone();
                text.append(": ");
                text.append(self.message.as_str());
                text
            },
            None => self.message.clone(),
        }
    }

    /// Human-readable validation message.
    pub fn message_text(&self) -> (r: &str)
        ensures
            r@ == self.message@,
    {
        self.message.as_str()
    }

    /// Byte range supplied by the TOML parser when available.
    pub fn span(&self) -> (r: Option<&std::ops::Range<usize>>)
        ensures
            r == match self.span {
                Some(range) => Some(&range),
                None => None::<&std::ops::Range<usize>>,
            },
    {
        match &self.span {
            Some(range) => Some(range),
            None => None,
        }
    }

    /// Manifest path when the error came from a file.
    pub fn path(&self) -> (r: Option<&str>)
        ensures
            match (r, self.path) {
                (Some(text), Some(path)) => text@ == path@,
                (None, None) => true,
                _ => false,
            },
    {
        match &self.path {
            Some(path) => Some(path.as_str()),
            None => None,
        }
    }
}

/// `text` with a message of the form `prefix``subject``suffix`.
fn quoted_message(prefix: &str, subject: &str, suffix: &str) -> (r: ManifestError)
    ensures
        r.message@ == prefix@ + subject@ + suffix@,
        r.span is None,
        r.path is None,
{
    let mut text = String::from_str(prefix);
    text.append(subject);
    text.append(suffix);
    ManifestError::message(text)
}

/// What `syn::parse_str::<syn::Ident>` gives for a text: `Ok` when the text
/// is exactly one Rust identifier that is not a keyword, otherwise the text of
/// syn's error.
pub uninterp spec fn syn_ident_parse(text: Seq<char>) -> Result<(), Seq<char>>;

/// What `syn::parse_str::<syn::Path>` gives for a text: for each path segment,
/// whether it carries no generic arguments; otherwise the text of syn's error.
pub uninterp spec fn syn_path_parse(text: Seq<char>) -> Result<Seq<bool>, Seq<char>>;

/// Parses `text` as one Rust identifier with `syn::parse_str::<syn::Ident>`.
/// Its contract only ties the outcome to the text by [`syn_ident_parse`]:
/// which texts syn accepts is not restated here.
#[verifier::external_body]
pub(crate) fn parse_rust_ident(text: &str) -> (r: Result<(), String>)
    ensures
        match r {
            Ok(()) => syn_ident_parse(text@) is Ok,
            Err(e) => syn_ident_parse(text@) == Err::<(), Seq<char>>(e@),
        },
{
    match syn::parse_str::<syn::Ident>(text) {
        Ok(_) => Ok(()),
        Err(error) => Err(error.to_string()),
    }
}

/// Parses `text` as a Rust path with `syn::parse_str::<syn::Path>`, reporting
/// for each segment whether it has no generic arguments. The contract only
/// ties the outcome to the text by [`syn_path_parse`].
#[verifier::external_body]
pub(crate) fn parse_rust_path(text: &str) -> (r: Result<Vec<bool>, String>)
    ensures
        match r {
            Ok(plain) => syn_path_parse(text@) == Ok::<Seq<bool>, Seq<char>>(plain@),
            Err(e) => syn_path_parse(text@) == Err::<Seq<bool>, Seq<char>>(e@),
        },
{
    match syn::parse_str::<syn::Path>(text) {
        Ok(path) => Ok(
            path.segments.iter().map(
                |segment| matches!(segment.arguments, syn::PathArguments::None),
            ).collect(),
        ),
        Err(error) => Err(error.to_string()),
    }
}

/// A valid Stainless identifier segment: an ASCII letter or `_`, then ASCII
/// letters, digits, or `_`, and not starting with the reserved `__`.
pub open spec fn stainless_identifier(id: Seq<char>) -> bool {
    &&& id.len() > 0
    &&& (ascii_alphabetic(id[0]) || id[0] == '_')
    &&& forall|k: int| 1 <= k < id.len() ==> ascii_alphanumeric(#[trigger] id[k]) || id[k] == '_'
    &&& !is_prefix("__"@, id)
}

/// Validates one Stainless identifier segment.
pub fn validate_stainless_identifier(identifier: &str, description: &str) -> (r: Result<(), ManifestError>)
    ensures
        plain_error(r),
        match r {
            Ok(()) => stainless_identifier(identifier@),
            Err(e) => !stainless_identifier(identifier@) && e.message@ == "invalid "@
                + description@ + " segment `"@ + identifier@ + "`"@,
        },
{
    let cs = chars_of(identifier);
    let mut valid = cs.len() > 0 && (crate::text::is_ascii_alphabetic(cs[0]) || cs[0] == '_');
    let mut k: usize = 1;
    while valid && k < cs.len()
        invariant
            cs@ == identifier@,
            1 <= k,
            valid ==> cs@.len() > 0 && (ascii_alphabetic(cs@[0]) || cs@[0] == '_'),
            valid ==> forall|q: int| 1 <= q < k && q < cs@.len() ==> ascii_alphanumeric(#[trigger] cs@[q]) || cs@[q] == '_',
            !valid ==> !stainless_identifier(identifier@),
        decreases cs@.len() - k,
    {
        if !(crate::text::is_ascii_alphanumeric(cs[k]) || cs[k] == '_') {
            valid = false;
        }
        k = k + 1;
    }
    if valid && str_has_prefix(identifier, "__") {
        valid = false;
    }
    if !valid {
        let mut text = String::from_str("invalid ");
        text.append(description);
        text.append(" segment `");
        text.append(identifier);
        text.append("`");
        return Err(ManifestError::message(text));
    }
    Ok(())
}

/// Validates a Rust identifier with syn.
pub fn validate_rust_identifier(identifier: &str, description: &str) -> (r: Result<(), ManifestError>)
    ensures
        plain_error(r),
        match r {
            Ok(()) => syn_ident_parse(identifier@) is Ok,
            Err(e) => syn_ident_parse(identifier@) matches Err(error) && e.message@ == "invalid "@
                + description@ + " `"@ + identifier@ + "`: "@ + error,
        },
{
    match parse_rust_ident(identifier) {
        Ok(()) => Ok(()),
        Err(error) => {
            let mut text = String::from_str("invalid ");
            text.append(description);
            text.append(" `");
            text.append(identifier);
            text.append("`: ");
            text.append(error.as_str());
            Err(ManifestError::message(text))
        },
    }
}

/// A Cargo dependency key with `-` spelled as `_`: its crate identifier.
pub open spec fn dependency_identifier_spec(dependency: Seq<char>) -> Seq<char> {
    dependency.map_values(|c: char| if c == '-' { '_' } else { c })
}

/// Returns the crate identifier of a Cargo dependency key.
pub fn dependency_identifier(dependency: &str) -> (r: String)
    ensures
        r@ == dependency_identifier_spec(dependency@),
{
    let cs = chars_of(dependency);
    let mut out = String::new();
    let mut i: usize = 0;
    while i < cs.len()
        invariant
            cs@ == dependency@,
            i <= cs@.len(),
            out@ == dependency_identifier_spec(dependency@).subrange(0, i as int),
        decreases cs@.len() - i,
    {
        push_char(&mut out, if cs[i] == '-' { '_' } else { cs[i] });
        i = i + 1;
        assert(out@ =~= dependency_identifier_spec(dependency@).subrange(0, i as int));
    }
    assert(dependency_identifier_spec(dependency@).subrange(0, cs@.len() as int) =~= dependency_identifier_spec(dependency@));
    out
}

/// A Cargo dependency key: ASCII letters, digits, `-`, and `_`.
pub open spec fn dependency_key(dependency: Seq<char>) -> bool {
    dependency.len() > 0 && forall|k: int|
        0 <= k < dependency.len() ==> ascii_alphanumeric(#[trigger] dependency[k]) || dependency[k]
            == '-' || dependency[k] == '_'
}

/// The error a Cargo dependency key reports.
pub open spec fn dependency_error(dependency: Seq<char>) -> Option<Seq<char>> {
    if !dependency_key(dependency) {
        Some("invalid Cargo dependency key `"@ + dependency + "`"@)
    } else {
        match syn_ident_parse(dependency_identifier_spec(dependency)) {
            Err(error) => Some(
                "invalid "@ + "Cargo dependency crate name"@ + " `"@ + dependency_identifier_spec(
                    dependency,
                ) + "`: "@ + error,
            ),
            Ok(_) => None,
        }
    }
}

/// Validates a Cargo dependency key and the crate identifier it denotes.
pub fn validate_dependency(dependency: &str) -> (r: Result<(), ManifestError>)
    ensures
        plain_error(r),
        match dependency_error(dependency@) {
            Some(e) => r matches Err(err) && err.message@ == e,
            None => r is Ok,
        },
{
    let cs = chars_of(dependency);
    let mut valid = cs.len() > 0;
    let mut k: usize = 0;
    while k < cs.len()
        invariant
            cs@ == dependency@,
            k <= cs@.len(),
            valid == (cs@.len() > 0 && forall|q: int|
                0 <= q < k ==> ascii_alphanumeric(#[trigger] cs@[q]) || cs@[q] == '-' || cs@[q] == '_'),
        decreases cs@.len() - k,
    {
        if !(crate::text::is_ascii_alphanumeric(cs[k]) || cs[k] == '-' || cs[k] == '_') {
            valid = false;
        }
        k = k + 1;
    }
    if !valid {
        return Err(quoted_message("invalid Cargo dependency key `", dependency, "`"));
    }
    let identifier = dependency_identifier(dependency);
    validate_rust_identifier(identifier.as_str(), "Cargo dependency crate name")
}

} // verus!

verus! {

/// `s` without all leading `::` separators, as `trim_start_matches("::")`.
pub open spec fn trim_leading_colons(s: Seq<char>) -> Seq<char>
    decreases s.len(),
{
    if s.len() >= 2 && s[0] == ':' && s[1] == ':' {
        trim_leading_colons(s.subrange(2, s.len() as int))
    } else {
        s
    }
}

/// Returns `path` without its leading `::` separators.
pub fn trim_leading_separators(path: &str) -> (r: String)
    ensures
        r@ == trim_leading_colons(path@),
{
    let cs = chars_of(path);
    let n = cs.len();
    let mut i: usize = 0;
    assert(path@.subrange(0, n as int) =~= path@);
    while n - i >= 2 && cs[i] == ':' && cs[i + 1] == ':'
        invariant
            cs@ == path@,
            n == cs@.len(),
            i <= n,
            trim_leading_colons(path@) == trim_leading_colons(path@.subrange(i as int, n as int)),
        decreases n - i,
    {
        assert(path@.subrange(i as int, n as int).subrange(2, n - i) =~= path@.subrange(i + 2, n as int));
        i = i + 2;
    }
    crate::text::substring(&cs, i, n)
}

/// A Rust path spelled absolutely: `::` followed by the path without its
/// leading separators.
pub fn absolute_rust_path(path: &str) -> (r: String)
    ensures
        r@ == "::"@ + trim_leading_colons(path@),
{
    let trimmed = trim_leading_separators(path);
    let mut out = String::from_str("::");
    out.append(trimmed.as_str());
    out
}

/// Whether syn reads `text` as a Rust item path without generic arguments.
pub open spec fn plain_rust_path(text: Seq<char>) -> bool {
    syn_path_parse(text) matches Ok(plain) && plain.len() > 0 && forall|k: int|
        0 <= k < plain.len() ==> #[trigger] plain[k]
}

/// The error a Rust item path reports, ignoring its leading `::`.
pub open spec fn rust_path_error(path: Seq<char>, description: Seq<char>) -> Option<Seq<char>> {
    match syn_path_parse(trim_leading_colons(path)) {
        Err(error) => Some("invalid "@ + description + " `"@ + path + "`: "@ + error),
        Ok(_) => if plain_rust_path(trim_leading_colons(path)) {
            None
        } else {
            Some(
                "invalid "@ + description + " `"@ + path + "`: "@
                    + "expected an item path without type arguments"@,
            )
        },
    }
}

/// Validates a Rust item path, ignoring leading `::`.
pub fn validate_rust_path(path: &str, description: &str) -> (r: Result<(), ManifestError>)
    ensures
        plain_error(r),
        match rust_path_error(path@, description@) {
            Some(e) => r matches Err(err) && err.message@ == e,
            None => r is Ok,
        },
{
    let normalized = trim_leading_separators(path);
    let mut text = String::from_str("invalid ");
    text.append(description);
    text.append(" `");
    text.append(path);
    text.append("`: ");
    match parse_rust_path(normalized.as_str()) {
        Err(error) => {
            text.append(error.as_str());
            Err(ManifestError::message(text))
        },
        Ok(plain) => {
            assert(syn_path_parse(trim_leading_colons(path@)) == Ok::<Seq<bool>, Seq<char>>(plain@));
            let mut all_plain = plain.len() > 0;
            let mut k: usize = 0;
            while k < plain.len()
                invariant
                    k <= plain@.len(),
                    all_plain == (plain@.len() > 0 && forall|q: int| 0 <= q < k ==> #[trigger] plain@[q]),
                decreases plain@.len() - k,
            {
                if !plain[k] {
                    all_plain = false;
                }
                k = k + 1;
            }
            if all_plain {
                Ok(())
            } else {
                text.append("expected an item path without type arguments");
                Err(ManifestError::message(text))
            }
        },
    }
}

/// Whether `path` names the crate `dependency` or an item below it.
pub open spec fn within_dependency(path: Seq<char>, dependency: Seq<char>) -> bool {
    path == dependency || is_prefix(dependency + "::"@, path)
}

/// The error a dependency key and a Rust path inside it report.
pub open spec fn dependency_path_error(dependency: Seq<char>, rust_path: Seq<char>, description: Seq<char>) -> Option<
    Seq<char>,
> {
    match dependency_error(dependency) {
        Some(e) => Some(e),
        None => match rust_path_error(rust_path, description) {
            Some(e) => Some(e),
            None => if within_dependency(
                trim_leading_colons(rust_path),
                dependency_identifier_spec(dependency),
            ) {
                None
            } else {
                Some(
                    description + " `"@ + rust_path + "` is outside dependency `"@
                        + dependency_identifier_spec(dependency) + "`"@,
                )
            },
        },
    }
}

/// Validates a dependency key and a Rust path that must lie inside it.
pub fn validate_dependency_path(dependency: &str, rust_path: &str, description: &str) -> (r: Result<
    (),
    ManifestError,
>)
    ensures
        plain_error(r),
        match dependency_path_error(dependency@, rust_path@, description@) {
            Some(e) => r matches Err(err) && err.message@ == e,
            None => r is Ok,
        },
{
    validate_dependency(dependency)?;
    validate_rust_path(rust_path, description)?;
    let identifier = dependency_identifier(dependency);
    let normalized = trim_leading_separators(rust_path);
    let mut below = identifier.clone();
    below.append("::");
    if !str_eq(normalized.as_str(), identifier.as_str()) && !str_has_prefix(
        normalized.as_str(),
        below.as_str(),
    ) {
        let mut text = String::from_str(description);
        text.append(" `");
        text.append(rust_path);
        text.append("` is outside dependency `");
        text.append(identifier.as_str());
        text.append("`");
        return Err(ManifestError::message(text));
    }
    Ok(())
}

/// Whether `path` is a non-empty `::`-separated list of Stainless
/// identifiers.
pub open spec fn stainless_path(path: Seq<char>) -> bool {
    path.len() > 0 && forall|k: int|
        0 <= k < split_path(path).len() ==> stainless_identifier(#[trigger] split_path(path)[k])
}

/// The first invalid segment error among `segments`.
pub open spec fn segments_error(segments: Seq<Seq<char>>, description: Seq<char>) -> Option<Seq<char>>
    decreases segments.len(),
{
    if segments.len() == 0 {
        None
    } else if !stainless_identifier(segments[0]) {
        Some("invalid "@ + description + " segment `"@ + segments[0] + "`"@)
    } else {
        segments_error(segments.drop_first(), description)
    }
}

/// The error a `::`-separated Stainless path reports.
pub open spec fn stainless_path_error(path: Seq<char>, description: Seq<char>) -> Option<Seq<char>> {
    if path.len() == 0 {
        Some("invalid "@ + description + ": path is empty"@)
    } else {
        segments_error(split_path(path), description)
    }
}

/// Validates a `::`-separated Stainless path.
pub fn validate_stainless_path(path: &str, description: &str) -> (r: Result<(), ManifestError>)
    ensures
        plain_error(r),
        match stainless_path_error(path@, description@) {
            Some(e) => r matches Err(err) && err.message@ == e,
            None => r is Ok,
        },
        r is Ok <==> stainless_path(path@),
{
    if path.unicode_len() == 0 {
        let mut text = String::from_str("invalid ");
        text.append(description);
        text.append(": path is empty");
        return Err(ManifestError::message(text));
    }
    let segments = split_path_string(path);
    let ghost views = segments@.map_values(|x: String| x@);
    let mut k: usize = 0;
    assert(views.skip(0) =~= views);
    while k < segments.len()
        invariant
            path@.len() > 0,
            views == split_path(path@),
            views == segments@.map_values(|x: String| x@),
            views.len() == segments@.len(),
            k <= segments@.len(),
            forall|q: int| 0 <= q < k ==> stainless_identifier(#[trigger] split_path(path@)[q]),
            segments_error(views, description@) == segments_error(views.skip(k as int), description@),
        decreases segments@.len() - k,
    {
        assert(views[k as int] == segments@[k as int]@);
        assert(views.skip(k as int)[0] == views[k as int]);
        assert(views.skip(k as int).drop_first() =~= views.skip(k + 1));
        validate_stainless_identifier(segments[k].as_str(), description)?;
        k = k + 1;
    }
    assert(views.skip(views.len() as int).len() == 0);
    Ok(())
}

} // verus!

verus! {

/// The primitive type a binding signature spells as `path`, if any.
pub open spec fn primitive_of(path: Seq<char>) -> Option<TypeRef> {
    if path == "void"@ {
        Some(TypeRef::Void)
    } else if path == "bool"@ {
        Some(TypeRef::Bool)
    } else if path == "char"@ {
        Some(TypeRef::Char)
    } else if path == "i8"@ {
        Some(TypeRef::I8)
    } else if path == "i16"@ {
        Some(TypeRef::I16)
    } else if path == "i32"@ {
        Some(TypeRef::I32)
    } else if path == "i64"@ {
        Some(TypeRef::I64)
    } else if path == "i128"@ {
        Some(TypeRef::I128)
    } else if path == "isize"@ {
        Some(TypeRef::Isize)
    } else if path == "u8"@ {
        Some(TypeRef::U8)
    } else if path == "u16"@ {
        Some(TypeRef::U16)
    } else if path == "u32"@ {
        Some(TypeRef::U32)
    } else if path == "u64"@ {
        Some(TypeRef::U64)
    } else if path == "u128"@ {
        Some(TypeRef::U128)
    } else if path == "usize"@ {
        Some(TypeRef::Usize)
    } else if path == "f32"@ {
        Some(TypeRef::F32)
    } else if path == "f64"@ {
        Some(TypeRef::F64)
    } else {
        None
    }
}

/// Returns the primitive type spelled `path`, if any.
pub fn manifest_primitive(path: &str) -> (r: Option<TypeRef>)
    ensures
        r == primitive_of(path@),
{
    if str_eq(path, "void") {
        Some(TypeRef::Void)
    } else if str_eq(path, "bool") {
        Some(TypeRef::Bool)
    } else if str_eq(path, "char") {
        Some(TypeRef::Char)
    } else if str_eq(path, "i8") {
        Some(TypeRef::I8)
    } else if str_eq(path, "i16") {
        Some(TypeRef::I16)
    } else if str_eq(path, "i32") {
        Some(TypeRef::I32)
    } else if str_eq(path, "i64") {
        Some(TypeRef::I64)
    } else if str_eq(path, "i128") {
        Some(TypeRef::I128)
    } else if str_eq(path, "isize") {
        Some(TypeRef::Isize)
    } else if str_eq(path, "u8") {
        Some(TypeRef::U8)
    } else if str_eq(path, "u16") {
        Some(TypeRef::U16)
    } else if str_eq(path, "u32") {
        Some(TypeRef::U32)
    } else if str_eq(path, "u64") {
        Some(TypeRef::U64)
    } else if str_eq(path, "u128") {
        Some(TypeRef::U128)
    } else if str_eq(path, "usize") {
        Some(TypeRef::Usize)
    } else if str_eq(path, "f32") {
        Some(TypeRef::F32)
    } else if str_eq(path, "f64") {
        Some(TypeRef::F64)
    } else {
        None
    }
}

/// The number of generic arguments declared for `path`: the last entry for
/// it, as later declarations override earlier ones.
pub open spec fn arity_of(known: Seq<(Seq<char>, usize)>, path: Seq<char>) -> Option<usize>
    decreases known.len(),
{
    if known.len() == 0 {
        None
    } else if known.last().0 == path {
        Some(known.last().1)
    } else {
        arity_of(known.drop_last(), path)
    }
}

/// The characters and arity of each entry of an arity table.
pub open spec fn arity_views(known: Seq<(String, usize)>) -> Seq<(Seq<char>, usize)> {
    Seq::new(known.len(), |i: int| (known[i].0@, known[i].1))
}

/// Looks up the declared generic arity of a native type path.
fn lookup_arity(known: &Vec<(String, usize)>, path: &str) -> (r: Option<usize>)
    ensures
        r == arity_of(arity_views(known@), path@),
{
    let ghost views = arity_views(known@);
    let mut i = known.len();
    assert(views.take(i as int) =~= views);
    while i > 0
        invariant
            views == arity_views(known@),
            i <= known@.len(),
            arity_of(views, path@) == arity_of(views.take(i as int), path@),
        decreases i,
    {
        assert(views.take(i as int).last() == views[i - 1]);
        assert(views.take(i as int).drop_last() =~= views.take(i - 1));
        if str_eq(known[i - 1].0.as_str(), path) {
            return Some(known[i - 1].1);
        }
        i = i - 1;
    }
    None
}

/// The `::`-joined spelling of a type path.
pub open spec fn path_text(path: crate::ast::Path) -> Seq<char> {
    crate::text::join_spec(path.segments@, "::"@)
}

/// The first error lowering a binding signature type reports.
pub open spec fn manifest_type_error(ty: crate::ast::Type, known: Seq<(Seq<char>, usize)>) -> Option<Seq<char>>
    decreases ty,
{
    if ty.is_const && !ty.is_reference {
        Some("`const` is only meaningful on reference types in binding signatures"@)
    } else {
        match ty.kind {
            crate::ast::TypeKind::Inferred => Some("`auto` is not valid in binding signatures"@),
            crate::ast::TypeKind::Error => Some(
                "recovered type errors are not valid in binding signatures"@,
            ),
            crate::ast::TypeKind::Function { .. } => Some(
                "function types are not valid in binding signatures"@,
            ),
            crate::ast::TypeKind::Named(named) => {
                let path = path_text(named.path);
                match primitive_of(path) {
                    Some(primitive) => if named.arguments@.len() > 0 {
                        Some(
                            "primitive binding type `"@ + path + "` cannot have type arguments"@,
                        )
                    } else if ty.is_reference && primitive == TypeRef::Void {
                        Some("`void` cannot be a binding reference target"@)
                    } else {
                        None
                    },
                    None => match arity_of(known, path) {
                        None => Some(
                            "binding signature uses undeclared native type `"@ + path + "`"@,
                        ),
                        Some(expected) => if expected != named.arguments@.len() {
                            Some(
                                "binding type `"@ + path + "` expects "@ + crate::text::decimal(
                                    expected as nat,
                                ) + " type argument(s), found "@ + crate::text::decimal(
                                    named.arguments@.len(),
                                ),
                            )
                        } else {
                            manifest_types_error(named.arguments@, known)
                        },
                    },
                }
            },
        }
    }
}

/// The first error among a list of binding signature types.
pub open spec fn manifest_types_error(tys: Seq<crate::ast::Type>, known: Seq<(Seq<char>, usize)>) -> Option<
    Seq<char>,
>
    decreases tys,
{
    if tys.len() == 0 {
        None
    } else {
        match manifest_type_error(tys[0], known) {
            Some(e) => Some(e),
            None => manifest_types_error(tys.drop_first(), known),
        }
    }
}

/// `t` is what the binding signature type `ty` lowers to.
pub open spec fn manifest_lowers_to(ty: crate::ast::Type, known: Seq<(Seq<char>, usize)>, t: TypeRef) -> bool
    decreases ty, 1nat,
{
    if ty.is_reference {
        t matches TypeRef::Reference { mutable, target } && mutable == !ty.is_const
            && manifest_base_lowers_to(ty, known, *target)
    } else {
        manifest_base_lowers_to(ty, known, t)
    }
}

/// `t` is what the body of `ty`, without its reference, lowers to.
pub open spec fn manifest_base_lowers_to(ty: crate::ast::Type, known: Seq<(Seq<char>, usize)>, t: TypeRef) -> bool
    decreases ty, 0nat,
{
    match ty.kind {
        crate::ast::TypeKind::Named(named) => match primitive_of(path_text(named.path)) {
            Some(primitive) => t == primitive,
            None => t matches TypeRef::Native { path, arguments } && path@ == path_text(named.path)
                && manifest_list_lowers_to(named.arguments@, known, arguments@),
        },
        _ => false,
    }
}

/// Each type of `ts` is what the matching type of `tys` lowers to.
pub open spec fn manifest_list_lowers_to(tys: Seq<crate::ast::Type>, known: Seq<(Seq<char>, usize)>, ts: Seq<TypeRef>) -> bool
    decreases tys, 2nat,
{
    if tys.len() == 0 {
        ts.len() == 0
    } else {
        ts.len() != 0 && manifest_lowers_to(tys[0], known, ts[0]) && manifest_list_lowers_to(
            tys.drop_first(),
            known,
            ts.drop_first(),
        )
    }
}

} // verus!

verus! {

/// [`manifest_list_lowers_to`] holds exactly when it holds element-wise.
pub proof fn lemma_manifest_list_pointwise(tys: Seq<crate::ast::Type>, known: Seq<(Seq<char>, usize)>, ts: Seq<TypeRef>)
    ensures
        manifest_list_lowers_to(tys, known, ts) <==> (tys.len() == ts.len() && forall|k: int|
            0 <= k < tys.len() ==> #[trigger] manifest_lowers_to(tys[k], known, ts[k])),
    decreases tys.len(),
{
    if tys.len() != 0 && ts.len() != 0 {
        let (a, b) = (tys.drop_first(), ts.drop_first());
        lemma_manifest_list_pointwise(a, known, b);
        if tys.len() == ts.len() && forall|k: int|
            0 <= k < tys.len() ==> #[trigger] manifest_lowers_to(tys[k], known, ts[k]) {
            assert forall|k: int| 0 <= k < a.len() implies #[trigger] manifest_lowers_to(a[k], known, b[k]) by {
                assert(a[k] == tys[k + 1] && b[k] == ts[k + 1]);
                assert(manifest_lowers_to(tys[k + 1], known, ts[k + 1]));
            }
            assert(manifest_lowers_to(tys[0], known, ts[0]));
        }
        if manifest_list_lowers_to(tys, known, ts) {
            assert forall|k: int| 0 <= k < tys.len() implies #[trigger] manifest_lowers_to(tys[k], known, ts[k]) by {
                if k > 0 {
                    assert(a[k - 1] == tys[k] && b[k - 1] == ts[k]);
                    assert(manifest_lowers_to(a[k - 1], known, b[k - 1]));
                }
            }
        }
    }
}

/// Lowers a binding signature type, reporting the first unsupported or
/// undeclared part.
pub fn lower_manifest_type(ty: &crate::ast::Type, known_arity: &Vec<(String, usize)>) -> (r: Result<TypeRef, ManifestError>)
    ensures
        plain_error(r),
        match manifest_type_error(*ty, arity_views(known_arity@)) {
            Some(e) => r matches Err(err) && err.message@ == e,
            None => r matches Ok(t) && manifest_lowers_to(*ty, arity_views(known_arity@), t),
        },
    decreases ty,
{
    if ty.is_const && !ty.is_reference {
        return Err(ManifestError::message(String::from_str("`const` is only meaningful on reference types in binding signatures")));
    }
    let value = match &ty.kind {
        crate::ast::TypeKind::Inferred => {
            return Err(ManifestError::message(String::from_str("`auto` is not valid in binding signatures")));
        },
        crate::ast::TypeKind::Error => {
            return Err(ManifestError::message(String::from_str("recovered type errors are not valid in binding signatures")));
        },
        crate::ast::TypeKind::Function { .. } => {
            return Err(ManifestError::message(String::from_str("function types are not valid in binding signatures")));
        },
        crate::ast::TypeKind::Named(named) => {
            let path = named.path.display();
            match manifest_primitive(path.as_str()) {
                Some(primitive) => {
                    if named.arguments.len() > 0 {
                        return Err(quoted_message("primitive binding type `", path.as_str(), "` cannot have type arguments"));
                    }
                    primitive
                },
                None => match lookup_arity(known_arity, path.as_str()) {
                    None => {
                        return Err(quoted_message("binding signature uses undeclared native type `", path.as_str(), "`"));
                    },
                    Some(expected) => {
                        if expected != named.arguments.len() {
                            let mut text = String::from_str("binding type `");
                            text.append(path.as_str());
                            text.append("` expects ");
                            let expected_text = crate::text::usize_decimal(expected);
                            text.append(expected_text.as_str());
                            text.append(" type argument(s), found ");
                            let found_text = crate::text::usize_decimal(named.arguments.len());
                            text.append(found_text.as_str());
                            return Err(ManifestError::message(text));
                        }
                        let ghost tys = named.arguments@;
                        assert(manifest_type_error(*ty, arity_views(known_arity@)) == manifest_types_error(tys, arity_views(known_arity@)));
                        let n = named.arguments.len();
                        let mut lowered: Vec<TypeRef> = Vec::new();
                        let mut i: usize = 0;
                        assert(tys.subrange(0, n as int) =~= tys);
                        while i < n
                            invariant
                                tys == named.arguments@,
                                ty.kind == crate::ast::TypeKind::Named(*named),
                                manifest_type_error(*ty, arity_views(known_arity@)) == manifest_types_error(tys, arity_views(known_arity@)),
                                n == tys.len(),
                                i <= n,
                                lowered@.len() == i,
                                forall|k: int| 0 <= k < i ==> #[trigger] manifest_lowers_to(tys[k], arity_views(known_arity@), lowered@[k]),
                                manifest_types_error(tys, arity_views(known_arity@)) == manifest_types_error(tys.subrange(i as int, n as int), arity_views(known_arity@)),
                            decreases n - i,
                        {
                            proof {
                                broadcast use vstd::std_specs::vec::axiom_vec_index_decreases;
                                assert(decreases_to!(ty => ty.kind));
                                assert(decreases_to!(ty.kind => *named));
                                assert(decreases_to!(*named => named.arguments));
                                assert(decreases_to!(named.arguments => named.arguments@[i as int]));
                                assert(decreases_to!(ty => named.arguments@[i as int]));
                                assert(tys.subrange(i as int, n as int)[0] == tys[i as int]);
                                assert(tys.subrange(i as int, n as int).drop_first() =~= tys.subrange(i + 1, n as int));
                            }
                            match lower_manifest_type(&named.arguments[i], known_arity) {
                                Ok(t) => {
                                    lowered.push(t);
                                },
                                Err(e) => {
                                    return Err(e);
                                },
                            }
                            i = i + 1;
                        }
                        proof {
                            lemma_manifest_list_pointwise(tys, arity_views(known_arity@), lowered@);
                            assert(tys.subrange(n as int, n as int).len() == 0);
                        }
                        TypeRef::native(path, lowered)
                    },
                },
            }
        },
    };
    if ty.is_reference {
        if matches!(value, TypeRef::Void) {
            return Err(ManifestError::message(String::from_str("`void` cannot be a binding reference target")));
        }
        let reference = if ty.is_const {
            TypeRef::shared_ref(value)
        } else {
            TypeRef::mutable_ref(value)
        };
        return Ok(reference);
    }
    Ok(value)
}

} // verus!

verus! {

/// How a declared native type is represented on the Stainless side.
#[derive(Clone, Copy, Debug, Eq, PartialEq, Structural)]
pub enum Representation {
    /// An opaque handle, the only implemented representation.
    Opaque,
    /// A frozen adapter, declared but not implemented.
    FrozenAdapter,
}

/// How a declared native error type renders into an exception message.
#[derive(Clone, Copy, Debug, Eq, PartialEq, Structural)]
pub enum ManifestErrorFormat {
    /// Rust `Display`.
    Display,
    /// Rust `Debug`.
    Debug,
}

impl From<ManifestErrorFormat> for NativeErrorFormat {
    fn from(value: ManifestErrorFormat) -> (r: Self) {
        match value {
            ManifestErrorFormat::Display => NativeErrorFormat::Display,
            ManifestErrorFormat::Debug => NativeErrorFormat::Debug,
        }
    }
}

impl vstd::std_specs::convert::FromSpecImpl<ManifestErrorFormat> for NativeErrorFormat {
    open spec fn obeys_from_spec() -> bool {
        true
    }

    open spec fn from_spec(value: ManifestErrorFormat) -> NativeErrorFormat {
        match value {
            ManifestErrorFormat::Display => NativeErrorFormat::Display,
            ManifestErrorFormat::Debug => NativeErrorFormat::Debug,
        }
    }
}

/// Receiver mode of a declared method.
#[derive(Clone, Copy, Debug, Eq, PartialEq, Structural)]
pub enum ManifestReceiver {
    /// `self`.
    Value,
    /// `&self`.
    Const,
    /// `&mut self`.
    Mut,
}

/// Callable trait family of a declared callback parameter.
#[derive(Clone, Copy, Debug, Eq, PartialEq, Structural)]
pub enum ManifestCallbackKind {
    /// `Fn`.
    Fn,
    /// `FnMut`.
    FnMut,
    /// `FnOnce`.
    FnOnce,
    /// A plain `fn` pointer.
    FnPtr,
}

/// How long a declared callback may be retained.
#[derive(Clone, Copy, Debug, Eq, PartialEq, Structural)]
pub enum ManifestCallbackEscape {
    /// Only during the call.
    Call,
    /// For the rest of the program.
    Static,
    /// By another thread.
    Thread,
}

/// What the Stainless parser made of a type spelling in a binding signature.
#[derive(Debug, Eq, PartialEq)]
pub enum TypeSyntax {
    /// The spelling parsed as this type.
    Parsed(crate::ast::Type),
    /// The parser reported these errors, joined with `; `.
    Invalid(String),
    /// The spelling parsed without errors but yielded no type.
    Missing,
}

/// A type spelling from a manifest together with its parse.
#[derive(Debug, Eq, PartialEq)]
pub struct TypeSpelling {
    /// The spelling as written in the manifest.
    pub text: String,
    /// Its parse.
    pub syntax: TypeSyntax,
}

/// A declared callback parameter.
#[derive(Debug, Eq, PartialEq)]
pub struct ManifestCallback {
    /// Callable trait family.
    pub kind: ManifestCallbackKind,
    /// Parameter types.
    pub parameters: Vec<TypeSpelling>,
    /// Return type.
    pub return_type: TypeSpelling,
    /// Retention contract.
    pub escape: ManifestCallbackEscape,
}

/// One declared callable parameter.
#[derive(Debug, Eq, PartialEq)]
pub enum ManifestParameter {
    /// A value of a spelled type.
    Value(TypeSpelling),
    /// A callback.
    Callback {
        /// The callback's signature.
        callback: ManifestCallback,
    },
}

/// One `[[type]]` table.
#[derive(Debug, Eq, PartialEq)]
pub struct ManifestType {
    /// Cargo dependency key providing the type.
    pub dependency: String,
    /// Rust path of the type.
    pub rust_path: String,
    /// Stainless path the type is exposed under.
    pub stainless_path: String,
    /// Stainless-side representation.
    pub representation: Representation,
    /// How the type renders as an exception message, when it can.
    pub error_format: Option<ManifestErrorFormat>,
}

/// One `[[function]]` table.
#[derive(Debug, Eq, PartialEq)]
pub struct ManifestFunction {
    /// Cargo dependency key providing the function.
    pub dependency: String,
    /// Rust path of the function.
    pub rust_path: String,
    /// Stainless path: the owning declared type, `::`, and the name.
    pub stainless_path: String,
    /// Parameters in order.
    pub parameters: Vec<ManifestParameter>,
    /// Return type.
    pub return_type: TypeSpelling,
}

/// One `[[method]]` table.
#[derive(Debug, Eq, PartialEq)]
pub struct ManifestMethod {
    /// Stainless path of the declared receiver type.
    pub receiver_type: String,
    /// Rust method name.
    pub rust_name: String,
    /// Stainless method name.
    pub stainless_name: String,
    /// Receiver mode.
    pub receiver: ManifestReceiver,
    /// Parameters in order.
    pub parameters: Vec<ManifestParameter>,
    /// Return type.
    pub return_type: TypeSpelling,
}

/// A complete bindings manifest.
#[derive(Debug, Eq, PartialEq)]
pub struct Manifest {
    /// Schema version; only `1` is understood.
    pub schema: u32,
    /// Declared types.
    pub types: Vec<ManifestType>,
    /// Declared associated functions.
    pub functions: Vec<ManifestFunction>,
    /// Declared methods.
    pub methods: Vec<ManifestMethod>,
}

} // verus!

verus! {

/// What `format!("{:?}", text)` gives for a string: Rust's quoted, escaped
/// `Debug` spelling of it.
pub uninterp spec fn str_debug(text: Seq<char>) -> Seq<char>;

/// The `Debug` spelling of a string, through `<str as Debug>::fmt`. The
/// contract only names the result by [`str_debug`]: Rust's escaping rules
/// are not restated here.
#[verifier::external_body]
pub(crate) fn debug_text(text: &str) -> (r: String)
    ensures
        r@ == str_debug(text@),
{
    format!("{text:?}")
}

/// The `Debug` spelling of a callback kind.
pub open spec fn callback_kind_name(kind: ManifestCallbackKind) -> Seq<char> {
    match kind {
        ManifestCallbackKind::Fn => "Fn"@,
        ManifestCallbackKind::FnMut => "FnMut"@,
        ManifestCallbackKind::FnOnce => "FnOnce"@,
        ManifestCallbackKind::FnPtr => "FnPtr"@,
    }
}

/// The `Debug` spelling of a callback escape contract.
pub open spec fn callback_escape_name(escape: ManifestCallbackEscape) -> Seq<char> {
    match escape {
        ManifestCallbackEscape::Call => "Call"@,
        ManifestCallbackEscape::Static => "Static"@,
        ManifestCallbackEscape::Thread => "Thread"@,
    }
}

/// The `Debug` spelling of a call style.
pub open spec fn call_style_name(style: CallStyle) -> Seq<char> {
    match style {
        CallStyle::Constructor => "Constructor"@,
        CallStyle::AssociatedFunction => "AssociatedFunction"@,
        CallStyle::Method => "Method"@,
    }
}

/// The quoted spellings of a list of type spellings.
pub open spec fn spellings_debug(ts: Seq<TypeSpelling>) -> Seq<Seq<char>> {
    Seq::new(ts.len(), |i: int| str_debug(ts[i].text@))
}

/// The `Debug` spelling of one declared parameter.
pub open spec fn parameter_debug(p: ManifestParameter) -> Seq<char> {
    match p {
        ManifestParameter::Value(t) => "Value("@ + str_debug(t.text@) + ")"@,
        ManifestParameter::Callback { callback } => "Callback { callback: ManifestCallback { kind: "@
            + callback_kind_name(callback.kind) + ", parameters: ["@ + join_chars(
            spellings_debug(callback.parameters@),
            ", "@,
        ) + "], return_type: "@ + str_debug(callback.return_type.text@) + ", escape: "@
            + callback_escape_name(callback.escape) + " } }"@,
    }
}

/// The `Debug` spellings of a list of declared parameters.
pub open spec fn parameters_debug_parts(ps: Seq<ManifestParameter>) -> Seq<Seq<char>> {
    Seq::new(ps.len(), |i: int| parameter_debug(ps[i]))
}

/// The signature text a generated wrapper's name is derived from.
pub open spec fn wrapper_signature(
    dependency: Seq<char>,
    target: Seq<char>,
    style: CallStyle,
    parameters: Seq<ManifestParameter>,
    return_text: Seq<char>,
) -> Seq<char> {
    dependency + "|"@ + target + "|"@ + call_style_name(style) + "|"@ + "["@ + join_chars(
        parameters_debug_parts(parameters),
        ", "@,
    ) + "]"@ + "|"@ + return_text
}

/// The 64-bit FNV-1a hash of `bytes`.
pub open spec fn fnv1a(bytes: Seq<u8>) -> u64
    decreases bytes.len(),
{
    if bytes.len() == 0 {
        0xcbf2_9ce4_8422_2325u64
    } else {
        vstd::wrapping::u64_specs::wrapping_mul(
            fnv1a(bytes.drop_last()) ^ (bytes.last() as u64),
            0x0000_0100_0000_01b3u64,
        )
    }
}

/// The lowercase hexadecimal digit for `d < 16`.
pub open spec fn hex_digit_char(d: nat) -> char {
    if d < 10 {
        crate::text::digit_char(d)
    } else if d == 10 {
        'a'
    } else if d == 11 {
        'b'
    } else if d == 12 {
        'c'
    } else if d == 13 {
        'd'
    } else if d == 14 {
        'e'
    } else {
        'f'
    }
}

/// The last `count` hexadecimal digits of `n`, zero-padded.
pub open spec fn hex_digits(n: nat, count: nat) -> Seq<char>
    decreases count,
{
    if count == 0 {
        Seq::empty()
    } else {
        hex_digits(n / 16, (count - 1) as nat).push(hex_digit_char(n % 16))
    }
}

/// `target` with every character that is not an ASCII letter or digit
/// replaced by `_`, cut to its first 80 characters.
pub open spec fn readable_name(target: Seq<char>) -> Seq<char> {
    let n = if target.len() < 80 { target.len() } else { 80 };
    Seq::new(n, |i: int| if ascii_alphanumeric(target[i]) { target[i] } else { '_' })
}

/// The deterministic name of the wrapper generated around a declared
/// callable.
pub open spec fn wrapper_name_spec(
    dependency: Seq<char>,
    target: Seq<char>,
    style: CallStyle,
    parameters: Seq<ManifestParameter>,
    return_text: Seq<char>,
) -> Seq<char> {
    "__stainless_wrapper_v1_"@ + readable_name(target) + "_"@ + hex_digits(
        fnv1a(vstd::utf8::encode_utf8(wrapper_signature(dependency, target, style, parameters, return_text))) as nat,
        16,
    )
}

/// Appends `items` joined by `, `, where `items` are the quoted spellings.
fn append_spellings(out: &mut String, ts: &Vec<TypeSpelling>)
    ensures
        final(out)@ == old(out)@ + join_chars(spellings_debug(ts@), ", "@),
{
    let ghost start = out@;
    let ghost parts = spellings_debug(ts@);
    let mut i: usize = 0;
    while i < ts.len()
        invariant
            parts == spellings_debug(ts@),
            i <= ts@.len(),
            out@ == start + join_chars(parts.take(i as int), ", "@),
        decreases ts@.len() - i,
    {
        let ghost before = out@;
        if i > 0 {
            out.append(", ");
        }
        let quoted = debug_text(ts[i].text.as_str());
        out.append(quoted.as_str());
        proof {
            assert(parts.take(i + 1).drop_last() =~= parts.take(i as int));
            assert(parts.take(i + 1).last() == parts[i as int]);
            if i == 0 {
                assert(parts.take(1)[0] == parts[0]);
                assert(join_chars(parts.take(0), ", "@) =~= Seq::<char>::empty());
                assert(out@ =~= start + join_chars(parts.take(1), ", "@));
            } else {
                assert(out@ =~= start + join_chars(parts.take(i + 1), ", "@));
            }
        }
        i = i + 1;
    }
    assert(parts.take(ts@.len() as int) =~= parts);
}

/// Appends the `Debug` spelling of one declared parameter.
fn append_parameter_debug(out: &mut String, p: &ManifestParameter)
    ensures
        final(out)@ == old(out)@ + parameter_debug(*p),
{
    let ghost start = out@;
    match p {
        ManifestParameter::Value(t) => {
            out.append("Value(");
            let quoted = debug_text(t.text.as_str());
            out.append(quoted.as_str());
            out.append(")");
            assert(out@ =~= start + parameter_debug(*p));
        },
        ManifestParameter::Callback { callback } => {
            out.append("Callback { callback: ManifestCallback { kind: ");
            let ghost a = out@;
            match callback.kind {
                ManifestCallbackKind::Fn => out.append("Fn"),
                ManifestCallbackKind::FnMut => out.append("FnMut"),
                ManifestCallbackKind::FnOnce => out.append("FnOnce"),
                ManifestCallbackKind::FnPtr => out.append("FnPtr"),
            }
            assert(out@ == a + callback_kind_name(callback.kind));
            out.append(", parameters: [");
            append_spellings(out, &callback.parameters);
            out.append("], return_type: ");
            let quoted = debug_text(callback.return_type.text.as_str());
            out.append(quoted.as_str());
            out.append(", escape: ");
            let ghost b = out@;
            match callback.escape {
                ManifestCallbackEscape::Call => out.append("Call"),
                ManifestCallbackEscape::Static => out.append("Static"),
                ManifestCallbackEscape::Thread => out.append("Thread"),
            }
            assert(out@ == b + callback_escape_name(callback.escape));
            out.append(" } }");
            assert(out@ =~= start + parameter_debug(*p));
        },
    }
}

/// Appends the `Debug` spelling of a parameter list.
fn append_parameters_debug(out: &mut String, ps: &Vec<ManifestParameter>)
    ensures
        final(out)@ == old(out)@ + "["@ + join_chars(parameters_debug_parts(ps@), ", "@) + "]"@,
{
    out.append("[");
    let ghost start = out@;
    let ghost parts = parameters_debug_parts(ps@);
    let mut i: usize = 0;
    while i < ps.len()
        invariant
            parts == parameters_debug_parts(ps@),
            i <= ps@.len(),
            out@ == start + join_chars(parts.take(i as int), ", "@),
        decreases ps@.len() - i,
    {
        if i > 0 {
            out.append(", ");
        }
        append_parameter_debug(out, &ps[i]);
        proof {
            assert(parts.take(i + 1).drop_last() =~= parts.take(i as int));
            assert(parts.take(i + 1).last() == parts[i as int]);
            if i == 0 {
                assert(parts.take(1)[0] == parts[0]);
                assert(join_chars(parts.take(0), ", "@) =~= Seq::<char>::empty());
                assert(out@ =~= start + join_chars(parts.take(1), ", "@));
            } else {
                assert(out@ =~= start + join_chars(parts.take(i + 1), ", "@));
            }
        }
        i = i + 1;
    }
    assert(parts.take(ps@.len() as int) =~= parts);
    out.append("]");
}

/// The 64-bit FNV-1a hash of the UTF-8 bytes of `text`.
fn fnv1a_hash(text: &str) -> (r: u64)
    ensures
        r == fnv1a(vstd::utf8::encode_utf8(text@)),
{
    let bytes = text.as_bytes();
    let mut hash: u64 = 0xcbf2_9ce4_8422_2325u64;
    let mut i: usize = 0;
    while i < bytes.len()
        invariant
            bytes@ == vstd::utf8::encode_utf8(text@),
            i <= bytes@.len(),
            hash == fnv1a(bytes@.take(i as int)),
        decreases bytes@.len() - i,
    {
        assert(bytes@.take(i + 1).drop_last() =~= bytes@.take(i as int));
        assert(bytes@.take(i + 1).last() == bytes@[i as int]);
        hash = (hash ^ (bytes[i] as u64)).wrapping_mul(0x0000_0100_0000_01b3u64);
        i = i + 1;
    }
    assert(bytes@.take(bytes@.len() as int) =~= bytes@);
    hash
}

/// The hexadecimal digit for `d < 16`.
fn hex_digit(d: u64) -> (r: char)
    requires
        d < 16,
    ensures
        r == hex_digit_char(d as nat),
{
    if d < 10 {
        if d == 0 {
            '0'
        } else if d == 1 {
            '1'
        } else if d == 2 {
            '2'
        } else if d == 3 {
            '3'
        } else if d == 4 {
            '4'
        } else if d == 5 {
            '5'
        } else if d == 6 {
            '6'
        } else if d == 7 {
            '7'
        } else if d == 8 {
            '8'
        } else {
            '9'
        }
    } else if d == 10 {
        'a'
    } else if d == 11 {
        'b'
    } else if d == 12 {
        'c'
    } else if d == 13 {
        'd'
    } else if d == 14 {
        'e'
    } else {
        'f'
    }
}

/// Appends the last `count` hexadecimal digits of `n`, zero-padded: with
/// `count == 16`, what `{:016x}` writes for a `u64`.
fn append_hex(out: &mut String, n: u64, count: usize)
    ensures
        final(out)@ == old(out)@ + hex_digits(n as nat, count as nat),
    decreases count,
{
    if count > 0 {
        append_hex(out, n / 16, count - 1);
        push_char(out, hex_digit(n % 16));
    } else {
        assert(old(out)@ + hex_digits(n as nat, 0) =~= old(out)@);
    }
}

/// Derives the deterministic name of the wrapper generated around a
/// declared callable from its dependency, Rust target, call style, declared
/// parameters, and return spelling.
pub fn wrapper_name(
    dependency: &str,
    target: &str,
    style: CallStyle,
    parameters: &Vec<ManifestParameter>,
    return_type: &str,
) -> (r: String)
    ensures
        r@ == wrapper_name_spec(dependency@, target@, style, parameters@, return_type@),
{
    let mut signature = String::from_str(dependency);
    signature.append("|");
    signature.append(target);
    signature.append("|");
    let ghost a = signature@;
    match style {
        CallStyle::Constructor => signature.append("Constructor"),
        CallStyle::AssociatedFunction => signature.append("AssociatedFunction"),
        CallStyle::Method => signature.append("Method"),
    }
    assert(signature@ == a + call_style_name(style));
    signature.append("|");
    append_parameters_debug(&mut signature, parameters);
    signature.append("|");
    signature.append(return_type);
    assert(signature@ =~= wrapper_signature(dependency@, target@, style, parameters@, return_type@));
    let hash = fnv1a_hash(signature.as_str());
    let mut name = String::from_str("__stainless_wrapper_v1_");
    let ghost prefix = name@;
    let cs = chars_of(target);
    let limit: usize = if cs.len() < 80 { cs.len() } else { 80 };
    let mut i: usize = 0;
    while i < limit
        invariant
            cs@ == target@,
            limit == if target@.len() < 80 { target@.len() } else { 80 },
            i <= limit,
            name@ == prefix + readable_name(target@).take(i as int),
        decreases limit - i,
    {
        let c = cs[i];
        push_char(&mut name, if crate::text::is_ascii_alphanumeric(c) { c } else { '_' });
        assert(readable_name(target@).take(i + 1) =~= readable_name(target@).take(i as int).push(
            readable_name(target@)[i as int],
        ));
        i = i + 1;
    }
    assert(readable_name(target@).take(limit as int) =~= readable_name(target@));
    name.append("_");
    append_hex(&mut name, hash, 16);
    name
}

} // verus!

verus! {

/// Whether `ty` is spelled as a reference or spells one among its type
/// arguments, at any depth.
pub open spec fn spelled_reference(ty: crate::ast::Type) -> bool
    decreases ty, 1nat,
{
    ty.is_reference || spelled_argument_reference(ty)
}

/// Whether a reference is spelled among the type arguments of `ty`, at any
/// depth.
pub open spec fn spelled_argument_reference(ty: crate::ast::Type) -> bool
    decreases ty, 0nat,
{
    match ty.kind {
        crate::ast::TypeKind::Named(named) => spelled_list_reference(named.arguments@),
        _ => false,
    }
}

/// Whether some type of the list spells a reference.
pub open spec fn spelled_list_reference(tys: Seq<crate::ast::Type>) -> bool
    decreases tys, 2nat,
{
    if tys.len() == 0 {
        false
    } else {
        spelled_reference(tys[0]) || spelled_list_reference(tys.drop_first())
    }
}

/// Whether `ty` spells `void` by value.
pub open spec fn spelled_void(ty: crate::ast::Type) -> bool {
    &&& !ty.is_reference
    &&& ty.kind matches crate::ast::TypeKind::Named(named)
    &&& primitive_of(path_text(named.path)) == Some(TypeRef::Void)
}

/// Whether `ty` spells a shared reference to a plain `rust::String`.
pub open spec fn spelled_string_ref(ty: crate::ast::Type) -> bool {
    &&& ty.is_reference
    &&& ty.is_const
    &&& ty.kind matches crate::ast::TypeKind::Named(named)
    &&& path_text(named.path) == "rust::String"@
    &&& primitive_of(path_text(named.path)) is None
    &&& named.arguments@.len() == 0
}

/// Whether a reference occurs strictly inside `t`, or strictly inside the
/// target of a reference `t`.
pub open spec fn nested_reference(t: TypeRef) -> bool {
    match t {
        TypeRef::Reference { target, .. } => nests_reference(*target),
        _ => nests_reference(t),
    }
}

/// The references of a lowered binding type are the ones its spelling shows.
pub proof fn lemma_lowered_references(ty: crate::ast::Type, known: Seq<(Seq<char>, usize)>, t: TypeRef)
    requires
        manifest_type_error(ty, known) is None,
        manifest_lowers_to(ty, known, t),
    ensures
        mentions_reference(t) == spelled_reference(ty),
        nested_reference(t) == spelled_argument_reference(ty),
    decreases ty, 1nat,
{
    let base = if ty.is_reference {
        match t {
            TypeRef::Reference { target, .. } => *target,
            _ => t,
        }
    } else {
        t
    };
    assert(manifest_base_lowers_to(ty, known, base));
    match ty.kind {
        crate::ast::TypeKind::Named(named) => {
            match primitive_of(path_text(named.path)) {
                Some(p) => {
                    assert(named.arguments@.len() == 0);
                    assert(base == p);
                },
                None => {
                    match base {
                        TypeRef::Native { path, arguments } => {
                            assert(manifest_types_error(named.arguments@, known) is None);
                            lemma_lowered_list_references(named.arguments@, known, arguments@);
                        },
                        _ => {},
                    }
                },
            }
        },
        _ => {},
    }
}

/// The references of lowered binding type lists are the ones their
/// spellings show.
pub proof fn lemma_lowered_list_references(
    tys: Seq<crate::ast::Type>,
    known: Seq<(Seq<char>, usize)>,
    ts: Seq<TypeRef>,
)
    requires
        manifest_types_error(tys, known) is None,
        manifest_list_lowers_to(tys, known, ts),
    ensures
        list_mentions_reference(ts) == spelled_list_reference(tys),
    decreases tys, 2nat,
{
    if tys.len() > 0 {
        lemma_lowered_references(tys[0], known, ts[0]);
        lemma_lowered_list_references(tys.drop_first(), known, ts.drop_first());
    }
}

/// A lowered binding type is `void` exactly when `void` is spelled by value,
/// and `&rust::String` exactly when that is spelled.
pub proof fn lemma_lowered_shape(ty: crate::ast::Type, known: Seq<(Seq<char>, usize)>, t: TypeRef)
    requires
        manifest_type_error(ty, known) is None,
        manifest_lowers_to(ty, known, t),
    ensures
        (t == TypeRef::Void) == spelled_void(ty),
        crate::interop::builtin::is_string_ref(t) == spelled_string_ref(ty),
{
    if ty.is_reference {
        match t {
            TypeRef::Reference { target, .. } => {
                assert(manifest_base_lowers_to(ty, known, *target));
                match ty.kind {
                    crate::ast::TypeKind::Named(named) => {
                        match *target {
                            TypeRef::Native { path, arguments } => {
                                if primitive_of(path_text(named.path)) is None {
                                    lemma_manifest_list_pointwise(named.arguments@, known, arguments@);
                                }
                            },
                            _ => {},
                        }
                    },
                    _ => {},
                }
            },
            _ => {},
        }
    }
}

} // verus!

verus! {

/// The error a type spelling reports before or while it is lowered.
pub open spec fn spelling_error(t: TypeSpelling, known: Seq<(Seq<char>, usize)>) -> Option<Seq<char>> {
    match t.syntax {
        TypeSyntax::Invalid(messages) => Some(
            "invalid Stainless binding type `"@ + t.text@ + "`: "@ + messages@,
        ),
        TypeSyntax::Missing => Some("invalid Stainless binding type `"@ + t.text@ + "`"@),
        TypeSyntax::Parsed(ty) => manifest_type_error(ty, known),
    }
}

/// `r` is what the type spelling `t` lowers to.
pub open spec fn spelling_lowers_to(t: TypeSpelling, known: Seq<(Seq<char>, usize)>, r: TypeRef) -> bool {
    t.syntax matches TypeSyntax::Parsed(ty) && manifest_lowers_to(ty, known, r)
}

/// Lowers one type spelling of a binding signature.
pub fn parse_type(source: &TypeSpelling, known_arity: &Vec<(String, usize)>) -> (r: Result<TypeRef, ManifestError>)
    ensures
        plain_error(r),
        match spelling_error(*source, arity_views(known_arity@)) {
            Some(e) => r matches Err(err) && err.message@ == e,
            None => r matches Ok(t) && spelling_lowers_to(*source, arity_views(known_arity@), t),
        },
{
    match &source.syntax {
        TypeSyntax::Invalid(messages) => {
            let mut text = String::from_str("invalid Stainless binding type `");
            text.append(source.text.as_str());
            text.append("`: ");
            text.append(messages.as_str());
            Err(ManifestError::message(text))
        },
        TypeSyntax::Missing => Err(
            quoted_message("invalid Stainless binding type `", source.text.as_str(), "`"),
        ),
        TypeSyntax::Parsed(ty) => lower_manifest_type(ty, known_arity),
    }
}

/// The message for a reference nested in a value of the given role.
pub open spec fn nested_reference_message(role: Seq<char>) -> Seq<char> {
    "reference-bearing "@ + role + " values are not supported in initial bindings"@
}

/// Rejects a type with a reference strictly inside it (inside the target,
/// for a reference).
pub fn reject_nested_reference(ty: &TypeRef, role: &str) -> (r: Result<(), ManifestError>)
    ensures
        plain_error(r),
        r is Ok <==> !nested_reference(*ty),
        r matches Err(e) ==> e.message@ == nested_reference_message(role@),
{
    let unsupported = match ty {
        TypeRef::Reference { target, .. } => target.contains_reference(),
        _ => ty.contains_reference(),
    };
    if unsupported {
        return Err(quoted_message("reference-bearing ", role, " values are not supported in initial bindings"));
    }
    Ok(())
}

/// The error a value spelling of the given role reports: its own lowering
/// error, a nested reference, or `void`.
pub open spec fn value_spelling_error(
    t: TypeSpelling,
    known: Seq<(Seq<char>, usize)>,
    role: Seq<char>,
    void_message: Seq<char>,
) -> Option<Seq<char>> {
    match spelling_error(t, known) {
        Some(e) => Some(e),
        None => match t.syntax {
            TypeSyntax::Parsed(ty) => if spelled_argument_reference(ty) {
                Some(nested_reference_message(role))
            } else if spelled_void(ty) {
                Some(void_message)
            } else {
                None
            },
            _ => None,
        },
    }
}

/// Lowers a value spelling of the given role, rejecting nested references
/// and `void`.
fn value_type(source: &TypeSpelling, known_arity: &Vec<(String, usize)>, role: &str, void_message: &str) -> (r: Result<TypeRef, ManifestError>)
    ensures
        plain_error(r),
        match value_spelling_error(*source, arity_views(known_arity@), role@, void_message@) {
            Some(e) => r matches Err(err) && err.message@ == e,
            None => r matches Ok(t) && spelling_lowers_to(*source, arity_views(known_arity@), t),
        },
{
    let ty = parse_type(source, known_arity)?;
    proof {
        let ast_ty = source.syntax->Parsed_0;
        lemma_lowered_references(ast_ty, arity_views(known_arity@), ty);
        lemma_lowered_shape(ast_ty, arity_views(known_arity@), ty);
    }
    reject_nested_reference(&ty, role)?;
    if matches!(ty, TypeRef::Void) {
        return Err(ManifestError::message(String::from_str(void_message)));
    }
    Ok(ty)
}

/// The message for a callback that may outlive the call.
pub open spec fn escaping_callback_message() -> Seq<char> {
    "only non-escaping callbacks with `escape = \"call\"` are implemented"@
}

/// The first error among callback parameter spellings.
pub open spec fn callback_parameters_error(ts: Seq<TypeSpelling>, known: Seq<(Seq<char>, usize)>) -> Option<Seq<char>>
    decreases ts.len(),
{
    if ts.len() == 0 {
        None
    } else {
        match value_spelling_error(
            ts[0],
            known,
            "callback parameter"@,
            "`void` is not a valid callback parameter type"@,
        ) {
            Some(e) => Some(e),
            None => callback_parameters_error(ts.drop_first(), known),
        }
    }
}

/// The error a declared callback reports.
pub open spec fn callback_error(c: ManifestCallback, known: Seq<(Seq<char>, usize)>) -> Option<Seq<char>> {
    if c.escape != ManifestCallbackEscape::Call {
        Some(escaping_callback_message())
    } else {
        match callback_parameters_error(c.parameters@, known) {
            Some(e) => Some(e),
            None => match spelling_error(c.return_type, known) {
                Some(e) => Some(e),
                None => if c.return_type.syntax matches TypeSyntax::Parsed(ty) && spelled_reference(ty) {
                    Some("callback return references are not supported"@)
                } else {
                    None
                },
            },
        }
    }
}

/// The callable trait family a declared callback kind denotes.
pub open spec fn callback_kind_of(kind: ManifestCallbackKind) -> CallbackKind {
    match kind {
        ManifestCallbackKind::Fn => CallbackKind::Fn,
        ManifestCallbackKind::FnMut => CallbackKind::FnMut,
        ManifestCallbackKind::FnOnce => CallbackKind::FnOnce,
        ManifestCallbackKind::FnPtr => CallbackKind::FunctionPointer,
    }
}

/// `r` is the callback type a declared callback lowers to.
pub open spec fn callback_lowers_to(c: ManifestCallback, known: Seq<(Seq<char>, usize)>, r: TypeRef) -> bool {
    &&& r matches TypeRef::Callback(ct)
    &&& ct.kind == callback_kind_of(c.kind)
    &&& ct.escape == CallbackEscape::Call
    &&& ct.parameters@.len() == c.parameters@.len()
    &&& forall|k: int|
        0 <= k < c.parameters@.len() ==> spelling_lowers_to(
            #[trigger] c.parameters@[k],
            known,
            ct.parameters@[k],
        )
    &&& spelling_lowers_to(c.return_type, known, *ct.return_type)
}

/// Lowers a declared callback to a callback parameter type.
pub fn parse_callback_type(callback: &ManifestCallback, known_arity: &Vec<(String, usize)>) -> (r: Result<TypeRef, ManifestError>)
    ensures
        plain_error(r),
        match callback_error(*callback, arity_views(known_arity@)) {
            Some(e) => r matches Err(err) && err.message@ == e,
            None => r matches Ok(t) && callback_lowers_to(*callback, arity_views(known_arity@), t),
        },
{
    let escape = match callback.escape {
        ManifestCallbackEscape::Call => CallbackEscape::Call,
        ManifestCallbackEscape::Static | ManifestCallbackEscape::Thread => {
            return Err(ManifestError::message(String::from_str("only non-escaping callbacks with `escape = \"call\"` are implemented")));
        },
    };
    let kind = match callback.kind {
        ManifestCallbackKind::Fn => CallbackKind::Fn,
        ManifestCallbackKind::FnMut => CallbackKind::FnMut,
        ManifestCallbackKind::FnOnce => CallbackKind::FnOnce,
        ManifestCallbackKind::FnPtr => CallbackKind::FunctionPointer,
    };
    let ghost ts = callback.parameters@;
    let mut parameters: Vec<TypeRef> = Vec::new();
    let mut i: usize = 0;
    assert(ts.skip(0) =~= ts);
    while i < callback.parameters.len()
        invariant
            ts == callback.parameters@,
            callback.escape == ManifestCallbackEscape::Call,
            i <= ts.len(),
            parameters@.len() == i,
            forall|k: int| 0 <= k < i ==> spelling_lowers_to(#[trigger] ts[k], arity_views(known_arity@), parameters@[k]),
            callback_parameters_error(ts, arity_views(known_arity@)) == callback_parameters_error(ts.skip(i as int), arity_views(known_arity@)),
        decreases ts.len() - i,
    {
        assert(ts.skip(i as int)[0] == ts[i as int]);
        assert(ts.skip(i as int).drop_first() =~= ts.skip(i + 1));
        let ty = value_type(
            &callback.parameters[i],
            known_arity,
            "callback parameter",
            "`void` is not a valid callback parameter type",
        )?;
        parameters.push(ty);
        i = i + 1;
    }
    assert(ts.skip(ts.len() as int).len() == 0);
    let return_type = parse_type(&callback.return_type, known_arity)?;
    proof {
        lemma_lowered_references(callback.return_type.syntax->Parsed_0, arity_views(known_arity@), return_type);
    }
    if return_type.is_reference() || return_type.contains_reference() {
        return Err(ManifestError::message(String::from_str("callback return references are not supported")));
    }
    Ok(TypeRef::callback(kind, escape, parameters, return_type))
}

} // verus!

verus! {

/// The error one declared parameter reports.
pub open spec fn parameter_error(p: ManifestParameter, known: Seq<(Seq<char>, usize)>) -> Option<Seq<char>> {
    match p {
        ManifestParameter::Value(t) => value_spelling_error(
            t,
            known,
            "parameter"@,
            "`void` is not a valid binding parameter type"@,
        ),
        ManifestParameter::Callback { callback } => callback_error(callback, known),
    }
}

/// The first error among declared parameters.
pub open spec fn parameters_error(ps: Seq<ManifestParameter>, known: Seq<(Seq<char>, usize)>) -> Option<Seq<char>>
    decreases ps.len(),
{
    if ps.len() == 0 {
        None
    } else {
        match parameter_error(ps[0], known) {
            Some(e) => Some(e),
            None => parameters_error(ps.drop_first(), known),
        }
    }
}

/// `out` is the callable parameter the declared parameter `p` at position
/// `index` becomes.
pub open spec fn parameter_lowers_to(
    p: ManifestParameter,
    known: Seq<(Seq<char>, usize)>,
    index: nat,
    out: Parameter,
) -> bool {
    &&& out.name@ == "argument_"@ + crate::text::decimal(index)
    &&& match p {
        ManifestParameter::Value(t) => {
            &&& spelling_lowers_to(t, known, out.ty)
            &&& out.adaptation == if t.syntax matches TypeSyntax::Parsed(ty) && spelled_string_ref(ty) {
                ArgumentAdaptation::StringRefToStr
            } else {
                ArgumentAdaptation::Identity
            }
        },
        ManifestParameter::Callback { callback } => {
            &&& callback_lowers_to(callback, known, out.ty)
            &&& out.adaptation == ArgumentAdaptation::Identity
        },
    }
}

/// The error a declared signature reports: its first parameter error, or
/// else its return spelling's.
pub open spec fn signature_error(
    ps: Seq<ManifestParameter>,
    return_type: TypeSpelling,
    known: Seq<(Seq<char>, usize)>,
) -> Option<Seq<char>> {
    match parameters_error(ps, known) {
        Some(e) => Some(e),
        None => spelling_error(return_type, known),
    }
}

/// `c` is the callable a declared signature becomes with the given name,
/// style, and receiver.
pub open spec fn callable_lowers_to(
    c: CallableBinding,
    source_name: Seq<char>,
    style: CallStyle,
    receiver: Option<Receiver>,
    ps: Seq<ManifestParameter>,
    return_type: TypeSpelling,
    known: Seq<(Seq<char>, usize)>,
) -> bool {
    &&& c.source_name@ == source_name
    &&& c.style == style
    &&& c.receiver == receiver
    &&& c.parameters@.len() == ps.len()
    &&& forall|k: int|
        0 <= k < ps.len() ==> parameter_lowers_to(#[trigger] ps[k], known, k as nat, c.parameters@[k])
    &&& spelling_lowers_to(return_type, known, c.return_type)
    &&& !c.is_async
    &&& c.rust_result_error is None
    &&& c.requirements@.len() == 0
}

/// Lowers one declared parameter at position `index`.
fn declared_parameter(p: &ManifestParameter, index: usize, known_arity: &Vec<(String, usize)>) -> (r: Result<Parameter, ManifestError>)
    ensures
        plain_error(r),
        match parameter_error(*p, arity_views(known_arity@)) {
            Some(e) => r matches Err(err) && err.message@ == e,
            None => r matches Ok(out) && parameter_lowers_to(*p, arity_views(known_arity@), index as nat, out),
        },
{
    let (ty, adaptation) = match p {
        ManifestParameter::Value(source) => {
            let ty = value_type(source, known_arity, "parameter", "`void` is not a valid binding parameter type")?;
            let string_ref = crate::interop::builtin::string_ref_type();
            proof {
                crate::interop::builtin::lemma_string_ref_eq(ty, string_ref);
                lemma_lowered_shape(source.syntax->Parsed_0, arity_views(known_arity@), ty);
            }
            let adaptation = if crate::interop::model::types_equal(&ty, &string_ref) {
                ArgumentAdaptation::StringRefToStr
            } else {
                ArgumentAdaptation::Identity
            };
            (ty, adaptation)
        },
        ManifestParameter::Callback { callback } => (
            parse_callback_type(callback, known_arity)?,
            ArgumentAdaptation::Identity,
        ),
    };
    let mut name = String::from_str("argument_");
    let number = crate::text::usize_decimal(index);
    name.append(number.as_str());
    Ok(Parameter::adapted(name, ty, adaptation))
}

/// Builds the callable a declared signature describes, lowering each
/// parameter and the return spelling.
pub fn callable(
    source_name: String,
    style: CallStyle,
    receiver: Option<Receiver>,
    parameter_sources: &Vec<ManifestParameter>,
    return_source: &TypeSpelling,
    lowering: RustLowering,
    known_arity: &Vec<(String, usize)>,
) -> (r: Result<CallableBinding, ManifestError>)
    ensures
        plain_error(r),
        match signature_error(parameter_sources@, *return_source, arity_views(known_arity@)) {
            Some(e) => r matches Err(err) && err.message@ == e,
            None => r matches Ok(c) && callable_lowers_to(
                c,
                source_name@,
                style,
                receiver,
                parameter_sources@,
                *return_source,
                arity_views(known_arity@),
            ) && c.lowering == lowering,
        },
{
    let ghost ps = parameter_sources@;
    let mut parameters: Vec<Parameter> = Vec::new();
    let mut i: usize = 0;
    assert(ps.skip(0) =~= ps);
    while i < parameter_sources.len()
        invariant
            ps == parameter_sources@,
            i <= ps.len(),
            parameters@.len() == i,
            forall|k: int|
                0 <= k < i ==> parameter_lowers_to(#[trigger] ps[k], arity_views(known_arity@), k as nat, parameters@[k]),
            parameters_error(ps, arity_views(known_arity@)) == parameters_error(ps.skip(i as int), arity_views(known_arity@)),
        decreases ps.len() - i,
    {
        assert(ps.skip(i as int)[0] == ps[i as int]);
        assert(ps.skip(i as int).drop_first() =~= ps.skip(i + 1));
        let parameter = declared_parameter(&parameter_sources[i], i, known_arity)?;
        parameters.push(parameter);
        i = i + 1;
    }
    assert(ps.skip(ps.len() as int).len() == 0);
    let return_type = parse_type(return_source, known_arity)?;
    Ok(CallableBinding {
        source_name,
        style,
        receiver,
        parameters,
        is_async: false,
        return_type,
        rust_result_error: None,
        requirements: Vec::new(),
        lowering,
    })
}

} // verus!

verus! {

/// The error a `[[type]]` table reports on its own.
pub open spec fn type_entry_error(entry: ManifestType) -> Option<Seq<char>> {
    if entry.representation != Representation::Opaque {
        Some(
            "type `"@ + entry.stainless_path@
                + "` uses unsupported representation; only `opaque` is implemented"@,
        )
    } else {
        match dependency_path_error(entry.dependency@, entry.rust_path@, "type Rust path"@) {
            Some(e) => Some(e),
            None => match stainless_path_error(entry.stainless_path@, "type Stainless path"@) {
                Some(e) => Some(e),
                None => {
                    let prefix = "rust::"@ + dependency_identifier_spec(entry.dependency@);
                    if entry.stainless_path@ == prefix || is_prefix(
                        prefix + "::"@,
                        entry.stainless_path@,
                    ) {
                        None
                    } else {
                        Some(
                            "Stainless path `"@ + entry.stainless_path@ + "` must be below `"@
                                + prefix + "`"@,
                        )
                    }
                },
            },
        }
    }
}

/// Whether an earlier `[[type]]` table declares the path of the `i`-th.
pub open spec fn declared_earlier(types: Seq<ManifestType>, i: int) -> bool {
    exists|j: int| 0 <= j < i && (#[trigger] types[j]).stainless_path@ == types[i].stainless_path@
}

/// The first error among the `[[type]]` tables from the `i`-th on, given
/// that the earlier ones passed.
pub open spec fn types_error_from(types: Seq<ManifestType>, i: nat) -> Option<Seq<char>>
    decreases types.len() - i,
{
    if i >= types.len() {
        None
    } else {
        match type_entry_error(types[i as int]) {
            Some(e) => Some(e),
            None => if declared_earlier(types, i as int) {
                Some("duplicate manifest type `"@ + types[i as int].stainless_path@ + "`"@)
            } else {
                types_error_from(types, i + 1)
            },
        }
    }
}

/// Whether `p` is the first declared type with path `path`.
pub open spec fn first_declared_at(types: Seq<ManifestType>, path: Seq<char>, p: int) -> bool {
    &&& 0 <= p < types.len()
    &&& types[p].stainless_path@ == path
    &&& forall|q: int| 0 <= q < p ==> (#[trigger] types[q]).stainless_path@ != path
}

/// The position of the first declared type with path `path`, or -1.
pub open spec fn first_declared(types: Seq<ManifestType>, path: Seq<char>) -> int {
    if exists|p: int| first_declared_at(types, path, p) {
        choose|p: int| first_declared_at(types, path, p)
    } else {
        -1
    }
}

/// The last `::` separator starting at or before `k`, or -1.
pub open spec fn last_separator_upto(s: Seq<char>, k: int) -> int
    decreases k + 1,
{
    if k < 0 {
        -1
    } else if crate::text::separator_at(s, k) {
        k
    } else {
        last_separator_upto(s, k - 1)
    }
}

/// The last `::` separator of `s`, or -1.
pub open spec fn last_separator(s: Seq<char>) -> int {
    last_separator_upto(s, s.len() - 2)
}

/// The owner part of an associated callable path: before its last `::`.
pub open spec fn callable_owner(path: Seq<char>) -> Seq<char> {
    path.subrange(0, last_separator(path))
}

/// The name part of an associated callable path: after its last `::`.
pub open spec fn callable_name(path: Seq<char>) -> Seq<char> {
    path.subrange(last_separator(path) + 2, path.len() as int)
}

/// The error splitting an associated callable path reports.
pub open spec fn split_error(path: Seq<char>) -> Option<Seq<char>> {
    if last_separator(path) < 0 {
        Some(
            "associated callable path `"@ + path + "` must include its declared native type"@,
        )
    } else if callable_owner(path).len() == 0 || callable_name(path).len() == 0 {
        Some("invalid associated callable path `"@ + path + "`"@)
    } else {
        None
    }
}

/// The error checking that a callable's owner is declared by its
/// dependency reports.
pub open spec fn owner_error(owner: Seq<char>, dependency: Seq<char>, types: Seq<ManifestType>) -> Option<Seq<char>> {
    let p = first_declared(types, owner);
    if p < 0 {
        Some("callable owner type `"@ + owner + "` is not declared in this manifest"@)
    } else if types[p].dependency@ == dependency {
        None
    } else {
        Some(
            "callable owner `"@ + owner + "` belongs to dependency `"@ + types[p].dependency@
                + "`, not `"@ + dependency + "`"@,
        )
    }
}

/// The error a `[[function]]` table reports.
pub open spec fn function_error(f: ManifestFunction, types: Seq<ManifestType>, known: Seq<(Seq<char>, usize)>) -> Option<Seq<char>> {
    match dependency_path_error(f.dependency@, f.rust_path@, "function Rust path"@) {
        Some(e) => Some(e),
        None => match stainless_path_error(f.stainless_path@, "function Stainless path"@) {
            Some(e) => Some(e),
            None => match split_error(f.stainless_path@) {
                Some(e) => Some(e),
                None => match owner_error(callable_owner(f.stainless_path@), f.dependency@, types) {
                    Some(e) => Some(e),
                    None => signature_error(f.parameters@, f.return_type, known),
                },
            },
        },
    }
}

/// The first error among `[[function]]` tables.
pub open spec fn functions_error(fs: Seq<ManifestFunction>, types: Seq<ManifestType>, known: Seq<(Seq<char>, usize)>) -> Option<Seq<char>>
    decreases fs.len(),
{
    if fs.len() == 0 {
        None
    } else {
        match function_error(fs[0], types, known) {
            Some(e) => Some(e),
            None => functions_error(fs.drop_first(), types, known),
        }
    }
}

/// The error a `[[method]]` table reports.
pub open spec fn method_error(m: ManifestMethod, types: Seq<ManifestType>, known: Seq<(Seq<char>, usize)>) -> Option<Seq<char>> {
    if !stainless_identifier(m.stainless_name@) {
        Some("invalid "@ + "method Stainless name"@ + " segment `"@ + m.stainless_name@ + "`"@)
    } else {
        match syn_ident_parse(m.rust_name@) {
            Err(error) => Some("invalid "@ + "method Rust name"@ + " `"@ + m.rust_name@ + "`: "@ + error),
            Ok(_) => if first_declared(types, m.receiver_type@) < 0 {
                Some(
                    "method receiver type `"@ + m.receiver_type@
                        + "` is not declared in this manifest"@,
                )
            } else {
                signature_error(m.parameters@, m.return_type, known)
            },
        }
    }
}

/// The first error among `[[method]]` tables.
pub open spec fn methods_error(ms: Seq<ManifestMethod>, types: Seq<ManifestType>, known: Seq<(Seq<char>, usize)>) -> Option<Seq<char>>
    decreases ms.len(),
{
    if ms.len() == 0 {
        None
    } else {
        match method_error(ms[0], types, known) {
            Some(e) => Some(e),
            None => methods_error(ms.drop_first(), types, known),
        }
    }
}

/// The arity table a manifest's signatures are checked against: each
/// compiler-provided type, then `rust::Option` and `rust::Result`, then each
/// declared type, which has no generic parameters.
pub open spec fn manifest_arity(builtins: Seq<NativeTypeBinding>, types: Seq<ManifestType>) -> Seq<(Seq<char>, usize)> {
    Seq::new(
        builtins.len(),
        |i: int| (builtins[i].stainless_path@, builtins[i].type_parameters@.len() as usize),
    ) + seq![("rust::Option"@, 1usize), ("rust::Result"@, 2usize)] + Seq::new(
        types.len(),
        |i: int| (types[i].stainless_path@, 0usize),
    )
}

/// The first error a manifest reports, checked against the given
/// compiler-provided types.
pub open spec fn manifest_error(m: Manifest, builtins: Seq<NativeTypeBinding>) -> Option<Seq<char>> {
    if m.schema != 1 {
        Some(
            "unsupported bindings schema "@ + crate::text::decimal(m.schema as nat)
                + "; expected 1"@,
        )
    } else {
        match types_error_from(m.types@, 0) {
            Some(e) => Some(e),
            None => {
                let known = manifest_arity(builtins, m.types@);
                match functions_error(m.functions@, m.types@, known) {
                    Some(e) => Some(e),
                    None => methods_error(m.methods@, m.types@, known),
                }
            },
        }
    }
}

/// The positions of the `[[function]]` tables whose owner is `path`, in order.
pub open spec fn owned_functions(fs: Seq<ManifestFunction>, path: Seq<char>) -> Seq<int>
    decreases fs.len(),
{
    if fs.len() == 0 {
        Seq::empty()
    } else if callable_owner(fs.last().stainless_path@) == path {
        owned_functions(fs.drop_last(), path).push(fs.len() - 1)
    } else {
        owned_functions(fs.drop_last(), path)
    }
}

/// The positions of the `[[method]]` tables whose receiver is `path`, in order.
pub open spec fn owned_methods(ms: Seq<ManifestMethod>, path: Seq<char>) -> Seq<int>
    decreases ms.len(),
{
    if ms.len() == 0 {
        Seq::empty()
    } else if ms.last().receiver_type@ == path {
        owned_methods(ms.drop_last(), path).push(ms.len() - 1)
    } else {
        owned_methods(ms.drop_last(), path)
    }
}

/// `c` is the callable a `[[function]]` table becomes.
pub open spec fn function_callable(f: ManifestFunction, known: Seq<(Seq<char>, usize)>, c: CallableBinding) -> bool {
    &&& callable_lowers_to(
        c,
        callable_name(f.stainless_path@),
        CallStyle::AssociatedFunction,
        None,
        f.parameters@,
        f.return_type,
        known,
    )
    &&& c.lowering matches RustLowering::GeneratedWrapper { wrapper_name, target }
    &&& wrapper_name@ == wrapper_name_spec(
        f.dependency@,
        f.rust_path@,
        CallStyle::AssociatedFunction,
        f.parameters@,
        f.return_type.text@,
    )
    &&& target matches WrapperTarget::Function { rust_path }
    &&& rust_path@ == "::"@ + trim_leading_colons(f.rust_path@)
}

/// The receiver a declared receiver mode denotes.
pub open spec fn receiver_of(receiver: ManifestReceiver) -> Receiver {
    match receiver {
        ManifestReceiver::Value => Receiver::Value,
        ManifestReceiver::Const => Receiver::Shared,
        ManifestReceiver::Mut => Receiver::Mutable,
    }
}

/// `c` is the callable a `[[method]]` table becomes, whose receiver type's
/// dependency is `dependency`.
pub open spec fn method_callable(m: ManifestMethod, dependency: Seq<char>, known: Seq<(Seq<char>, usize)>, c: CallableBinding) -> bool {
    &&& callable_lowers_to(
        c,
        m.stainless_name@,
        CallStyle::Method,
        Some(receiver_of(m.receiver)),
        m.parameters@,
        m.return_type,
        known,
    )
    &&& c.lowering matches RustLowering::GeneratedWrapper { wrapper_name, target }
    &&& wrapper_name@ == wrapper_name_spec(
        dependency,
        m.receiver_type@ + "::"@ + m.rust_name@,
        CallStyle::Method,
        m.parameters@,
        m.return_type.text@,
    )
    &&& target matches WrapperTarget::Method { rust_name }
    &&& rust_name@ == m.rust_name@
}

/// `cs` are the callables of the declared type `path` once the first `nf`
/// `[[function]]` tables of `fs` and the first `nm` `[[method]]` tables of
/// `ms` are attached: those of the functions it owns, in order, then those
/// of the methods it receives, in order.
pub open spec fn owned_callables(
    fs: Seq<ManifestFunction>,
    nf: int,
    ms: Seq<ManifestMethod>,
    nm: int,
    types: Seq<ManifestType>,
    known: Seq<(Seq<char>, usize)>,
    path: Seq<char>,
    cs: Seq<CallableBinding>,
) -> bool {
    let fi = owned_functions(fs.take(nf), path);
    let mi = owned_methods(ms.take(nm), path);
    &&& cs.len() == fi.len() + mi.len()
    &&& forall|k: int| 0 <= k < fi.len() ==> function_callable(fs[fi[k]], known, #[trigger] cs[k])
    &&& forall|k: int|
        0 <= k < mi.len() ==> method_callable(
            ms[mi[k]],
            types[first_declared(types, path)].dependency@,
            known,
            #[trigger] cs[fi.len() + k],
        )
}

/// The error format a declared one denotes.
pub open spec fn error_format_of(f: Option<ManifestErrorFormat>) -> Option<NativeErrorFormat> {
    match f {
        Some(ManifestErrorFormat::Display) => Some(NativeErrorFormat::Display),
        Some(ManifestErrorFormat::Debug) => Some(NativeErrorFormat::Debug),
        None => None,
    }
}

/// `t` is the native type binding the `i`-th `[[type]]` table declares,
/// without its callables.
pub open spec fn declared_type(types: Seq<ManifestType>, i: int, t: NativeTypeBinding) -> bool {
    &&& t.stainless_path@ == types[i].stainless_path@
    &&& t.rust_path@ == "::"@ + trim_leading_colons(types[i].rust_path@)
    &&& t.type_parameters@.len() == 0
    &&& t.error_format == error_format_of(types[i].error_format)
}

/// `built` are the native type bindings a valid manifest declares, in
/// declaration order, each with the callables attached to it.
pub open spec fn manifest_types(m: Manifest, known: Seq<(Seq<char>, usize)>, built: Seq<NativeTypeBinding>) -> bool {
    &&& built.len() == m.types@.len()
    &&& forall|i: int|
        0 <= i < built.len() ==> declared_type(m.types@, i, #[trigger] built[i]) && owned_callables(
            m.functions@,
            m.functions@.len() as int,
            m.methods@,
            m.methods@.len() as int,
            m.types@,
            known,
            m.types@[i].stainless_path@,
            built[i].callables@,
        )
}

} // verus!

verus! {

/// Validates one `[[type]]` table on its own.
pub fn validate_type_entry(entry: &ManifestType) -> (r: Result<(), ManifestError>)
    ensures
        plain_error(r),
        match type_entry_error(*entry) {
            Some(e) => r matches Err(err) && err.message@ == e,
            None => r is Ok,
        },
{
    if entry.representation != Representation::Opaque {
        return Err(
            quoted_message(
                "type `",
                entry.stainless_path.as_str(),
                "` uses unsupported representation; only `opaque` is implemented",
            ),
        );
    }
    validate_dependency_path(entry.dependency.as_str(), entry.rust_path.as_str(), "type Rust path")?;
    validate_stainless_path(entry.stainless_path.as_str(), "type Stainless path")?;
    let dependency = dependency_identifier(entry.dependency.as_str());
    let mut expected_prefix = String::from_str("rust::");
    expected_prefix.append(dependency.as_str());
    let mut below = expected_prefix.clone();
    below.append("::");
    if !str_eq(entry.stainless_path.as_str(), expected_prefix.as_str()) && !str_has_prefix(
        entry.stainless_path.as_str(),
        below.as_str(),
    ) {
        let mut text = String::from_str("Stainless path `");
        text.append(entry.stainless_path.as_str());
        text.append("` must be below `");
        text.append(expected_prefix.as_str());
        text.append("`");
        return Err(ManifestError::message(text));
    }
    Ok(())
}

/// Splits an associated callable path at its last `::` into the owner type
/// path and the callable name.
pub fn split_callable_path(path: &str) -> (r: Result<(String, String), ManifestError>)
    ensures
        plain_error(r),
        match split_error(path@) {
            Some(e) => r matches Err(err) && err.message@ == e,
            None => r matches Ok((owner, name)) && owner@ == callable_owner(path@) && name@
                == callable_name(path@),
        },
{
    let cs = chars_of(path);
    let n = cs.len();
    let mut i: usize = if n >= 1 { n - 1 } else { 0 };
    let mut found = false;
    while i > 0
        invariant_except_break
            cs@ == path@,
            n == path@.len(),
            i <= n,
            n == 0 ==> i == 0,
            !found,
            last_separator(path@) == last_separator_upto(path@, i - 1),
        ensures
            cs@ == path@,
            n == path@.len(),
            found ==> 1 <= i <= n - 1 && last_separator(path@) == i - 1,
            !found ==> last_separator(path@) == -1,
        decreases i,
    {
        let k = i - 1;
        if k + 1 < n && cs[k] == ':' && cs[k + 1] == ':' {
            found = true;
            break;
        }
        i = i - 1;
    }
    if !found {
        return Err(
            quoted_message(
                "associated callable path `",
                path,
                "` must include its declared native type",
            ),
        );
    }
    let k = i - 1;
    let owner = crate::text::substring(&cs, 0, k);
    let name = crate::text::substring(&cs, k + 2, n);
    if owner.unicode_len() == 0 || name.unicode_len() == 0 {
        return Err(quoted_message("invalid associated callable path `", path, "`"));
    }
    Ok((owner, name))
}

/// The first declared type is the one [`first_declared`] names.
proof fn lemma_first_declared(types: Seq<ManifestType>, path: Seq<char>, p: int)
    requires
        first_declared_at(types, path, p),
    ensures
        first_declared(types, path) == p,
{
    let q = choose|q: int| first_declared_at(types, path, q);
    assert(first_declared_at(types, path, q));
    if q < p {
        assert(types[q].stainless_path@ != path);
    } else if p < q {
        assert(types[p].stainless_path@ != path);
    }
}

/// Finds the position of the first declared type with path `path`.
pub fn declared_index(types: &Vec<ManifestType>, path: &str) -> (r: Option<usize>)
    ensures
        match r {
            Some(p) => first_declared(types@, path@) == p as int && p < types@.len(),
            None => first_declared(types@, path@) == -1,
        },
{
    let mut i: usize = 0;
    while i < types.len()
        invariant
            i <= types@.len(),
            forall|q: int| 0 <= q < i ==> (#[trigger] types@[q]).stainless_path@ != path@,
        decreases types@.len() - i,
    {
        if str_eq(types[i].stainless_path.as_str(), path) {
            proof {
                lemma_first_declared(types@, path@, i as int);
            }
            return Some(i);
        }
        i = i + 1;
    }
    assert(!exists|p: int| first_declared_at(types@, path@, p));
    None
}

/// Checks that a callable's owner is a declared type of its dependency.
pub fn validate_declared_owner(owner: &str, dependency: &str, types: &Vec<ManifestType>) -> (r: Result<(), ManifestError>)
    ensures
        plain_error(r),
        match owner_error(owner@, dependency@, types@) {
            Some(e) => r matches Err(err) && err.message@ == e,
            None => r is Ok,
        },
{
    match declared_index(types, owner) {
        Some(p) => {
            if str_eq(types[p].dependency.as_str(), dependency) {
                Ok(())
            } else {
                let mut text = String::from_str("callable owner `");
                text.append(owner);
                text.append("` belongs to dependency `");
                text.append(types[p].dependency.as_str());
                text.append("`, not `");
                text.append(dependency);
                text.append("`");
                Err(ManifestError::message(text))
            }
        },
        None => Err(quoted_message("callable owner type `", owner, "` is not declared in this manifest")),
    }
}

} // verus!

verus! {

/// Once the `[[type]]` tables from the `i`-th on pass, each of them passes
/// on its own and declares a path no earlier one declares.
proof fn lemma_types_valid(types: Seq<ManifestType>, i: nat)
    requires
        types_error_from(types, i) is None,
    ensures
        forall|k: int| i <= k < types.len() ==> type_entry_error(#[trigger] types[k]) is None,
        forall|k: int| i <= k < types.len() ==> !#[trigger] declared_earlier(types, k),
    decreases types.len() - i,
{
    if i < types.len() {
        lemma_types_valid(types, i + 1);
    }
}

/// Validates the `[[type]]` tables in order and declares their bindings,
/// still without callables.
fn declare_types(types: &Vec<ManifestType>) -> (r: Result<Vec<NativeTypeBinding>, ManifestError>)
    ensures
        plain_error(r),
        match types_error_from(types@, 0) {
            Some(e) => r matches Err(err) && err.message@ == e,
            None => r matches Ok(built) && built@.len() == types@.len() && forall|i: int|
                0 <= i < types@.len() ==> declared_type(types@, i, #[trigger] built@[i])
                    && built@[i].callables@.len() == 0,
        },
{
    let mut built: Vec<NativeTypeBinding> = Vec::new();
    let mut i: usize = 0;
    while i < types.len()
        invariant
            i <= types@.len(),
            built@.len() == i,
            forall|k: int|
                0 <= k < i ==> declared_type(types@, k, #[trigger] built@[k])
                    && built@[k].callables@.len() == 0,
            types_error_from(types@, 0) == types_error_from(types@, i as nat),
        decreases types@.len() - i,
    {
        let entry = &types[i];
        validate_type_entry(entry)?;
        let mut j: usize = 0;
        while j < i
            invariant
                i < types@.len(),
                j <= i,
                entry == types@[i as int],
                type_entry_error(types@[i as int]) is None,
                types_error_from(types@, 0) == types_error_from(types@, i as nat),
                forall|q: int| 0 <= q < j ==> (#[trigger] types@[q]).stainless_path@ != entry.stainless_path@,
            decreases i - j,
        {
            if str_eq(types[j].stainless_path.as_str(), entry.stainless_path.as_str()) {
                assert(declared_earlier(types@, i as int));
                return Err(quoted_message("duplicate manifest type `", entry.stainless_path.as_str(), "`"));
            }
            j = j + 1;
        }
        assert(!declared_earlier(types@, i as int));
        let error_format = match entry.error_format {
            Some(format) => Some(NativeErrorFormat::from(format)),
            None => None,
        };
        built.push(NativeTypeBinding {
            stainless_path: entry.stainless_path.clone(),
            rust_path: absolute_rust_path(entry.rust_path.as_str()),
            type_parameters: Vec::new(),
            error_format,
            callables: Vec::new(),
        });
        i = i + 1;
    }
    Ok(built)
}

/// The arity table for a manifest's declared types, checked against the
/// given compiler-provided types.
fn arity_table(builtins: &NativeBindings, types: &Vec<ManifestType>) -> (r: Vec<(String, usize)>)
    ensures
        arity_views(r@) == manifest_arity(builtins@, types@),
{
    let provided = builtins.types();
    let ghost target = manifest_arity(builtins@, types@);
    let mut known: Vec<(String, usize)> = Vec::new();
    let mut i: usize = 0;
    while i < provided.len()
        invariant
            provided@ == builtins@,
            target == manifest_arity(builtins@, types@),
            i <= provided@.len(),
            arity_views(known@) == target.take(i as int),
        decreases provided@.len() - i,
    {
        let ghost before = known@;
        known.push((provided[i].stainless_path.clone(), provided[i].type_parameters.len()));
        assert(target[i as int] == (builtins@[i as int].stainless_path@, builtins@[i as int].type_parameters@.len() as usize));
        assert(arity_views(known@) =~= arity_views(before).push(target[i as int]));
        assert(target.take(i + 1) =~= target.take(i as int).push(target[i as int]));
        i = i + 1;
    }
    known.push((String::from_str("rust::Option"), 1));
    known.push((String::from_str("rust::Result"), 2));
    let base = known.len();
    assert(target[builtins@.len() as int] == ("rust::Option"@, 1usize));
    assert(target[builtins@.len() as int + 1] == ("rust::Result"@, 2usize));
    assert(arity_views(known@) =~= target.take(base as int));
    let mut j: usize = 0;
    while j < types.len()
        invariant
            target == manifest_arity(builtins@, types@),
            base == builtins@.len() + 2,
            j <= types@.len(),
            known@.len() == base + j,
            arity_views(known@) == target.take(base + j),
        decreases types@.len() - j,
    {
        let ghost before = known@;
        known.push((types[j].stainless_path.clone(), 0));
        assert(target[base + j] == (types@[j as int].stainless_path@, 0usize));
        assert(arity_views(known@) =~= arity_views(before).push(target[base + j]));
        assert(target.take(base + j + 1) =~= target.take(base + j).push(target[base + j]));
        j = j + 1;
    }
    assert(target.take(base + types@.len()) =~= target);
    known
}

/// Appends `callable` to the callables of the `p`-th binding.
fn attach_callable(types: &mut Vec<NativeTypeBinding>, p: usize, callable: CallableBinding)
    requires
        p < old(types)@.len(),
    ensures
        final(types)@.len() == old(types)@.len(),
        forall|i: int| 0 <= i < old(types)@.len() && i != p ==> #[trigger] final(types)@[i] == old(types)@[i],
        final(types)@[p as int].stainless_path == old(types)@[p as int].stainless_path,
        final(types)@[p as int].rust_path == old(types)@[p as int].rust_path,
        final(types)@[p as int].type_parameters == old(types)@[p as int].type_parameters,
        final(types)@[p as int].error_format == old(types)@[p as int].error_format,
        final(types)@[p as int].callables@ == old(types)@[p as int].callables@.push(callable),
{
    types[p].callables.push(callable);
}

} // verus!

verus! {

/// Whether no two `[[type]]` tables declare the same path.
pub open spec fn distinct_declarations(types: Seq<ManifestType>) -> bool {
    forall|k: int| 0 <= k < types.len() ==> !#[trigger] declared_earlier(types, k)
}

/// With distinct declarations, the first declared type with a path is the
/// only one.
proof fn lemma_only_declared(types: Seq<ManifestType>, path: Seq<char>, p: int, i: int)
    requires
        distinct_declarations(types),
        first_declared(types, path) == p,
        0 <= p < types.len(),
        0 <= i < types.len(),
        i != p,
    ensures
        types[i].stainless_path@ != path,
{
    if !(exists|q: int| first_declared_at(types, path, q)) {
        assert(false);
    }
    assert(first_declared_at(types, path, p));
    if i > p && types[i].stainless_path@ == path {
        assert(declared_earlier(types, i));
    }
}

/// Attaching the callable of the `j`-th `[[function]]` table to its owner
/// keeps every declared binding's callables in step with the attached
/// tables.
proof fn lemma_attach_function(
    fs: Seq<ManifestFunction>,
    j: int,
    ms: Seq<ManifestMethod>,
    mtypes: Seq<ManifestType>,
    known: Seq<(Seq<char>, usize)>,
    before: Seq<NativeTypeBinding>,
    after: Seq<NativeTypeBinding>,
    p: int,
    c: CallableBinding,
)
    requires
        0 <= j < fs.len(),
        distinct_declarations(mtypes),
        before.len() == mtypes.len(),
        after.len() == mtypes.len(),
        0 <= p < mtypes.len(),
        first_declared(mtypes, callable_owner(fs[j].stainless_path@)) == p,
        forall|i: int|
            0 <= i < mtypes.len() ==> declared_type(mtypes, i, #[trigger] before[i]) && owned_callables(
                fs,
                j,
                ms,
                0,
                mtypes,
                known,
                mtypes[i].stainless_path@,
                before[i].callables@,
            ),
        forall|i: int| 0 <= i < mtypes.len() && i != p ==> #[trigger] after[i] == before[i],
        after[p].stainless_path == before[p].stainless_path,
        after[p].rust_path == before[p].rust_path,
        after[p].type_parameters == before[p].type_parameters,
        after[p].error_format == before[p].error_format,
        after[p].callables@ == before[p].callables@.push(c),
        function_callable(fs[j], known, c),
    ensures
        forall|i: int|
            0 <= i < mtypes.len() ==> declared_type(mtypes, i, #[trigger] after[i]) && owned_callables(
                fs,
                j + 1,
                ms,
                0,
                mtypes,
                known,
                mtypes[i].stainless_path@,
                after[i].callables@,
            ),
{
    let owner = callable_owner(fs[j].stainless_path@);
    assert(fs.take(j + 1).drop_last() =~= fs.take(j));
    assert(fs.take(j + 1).last() == fs[j]);
    assert(ms.take(0) =~= Seq::<ManifestMethod>::empty());
    assert forall|i: int| 0 <= i < mtypes.len() implies declared_type(mtypes, i, #[trigger] after[i])
        && owned_callables(fs, j + 1, ms, 0, mtypes, known, mtypes[i].stainless_path@, after[i].callables@) by {
        let path = mtypes[i].stainless_path@;
        let fi = owned_functions(fs.take(j), path);
        let fi2 = owned_functions(fs.take(j + 1), path);
        assert(declared_type(mtypes, i, before[i]));
        assert(owned_callables(fs, j, ms, 0, mtypes, known, path, before[i].callables@));
        if i == p {
            assert(first_declared_at(mtypes, owner, p)) by {
                if !(exists|q: int| first_declared_at(mtypes, owner, q)) {
                    assert(false);
                }
            }
            assert(path == owner);
            assert(fi2 == fi.push(j));
            let cs = before[i].callables@;
            let cs2 = after[i].callables@;
            assert forall|k: int| 0 <= k < fi2.len() implies function_callable(fs[fi2[k]], known, #[trigger] cs2[k]) by {
                if k < fi.len() {
                    assert(cs2[k] == cs[k]);
                    assert(fi2[k] == fi[k]);
                    assert(function_callable(fs[fi[k]], known, cs[k]));
                }
            }
        } else {
            lemma_only_declared(mtypes, owner, p, i);
            assert(fi2 == fi);
        }
    }
}

} // verus!

verus! {

/// Attaching the callable of the `j`-th `[[method]]` table to its receiver
/// type keeps every declared binding's callables in step with the attached
/// tables.
proof fn lemma_attach_method(
    fs: Seq<ManifestFunction>,
    ms: Seq<ManifestMethod>,
    j: int,
    mtypes: Seq<ManifestType>,
    known: Seq<(Seq<char>, usize)>,
    before: Seq<NativeTypeBinding>,
    after: Seq<NativeTypeBinding>,
    p: int,
    c: CallableBinding,
)
    requires
        0 <= j < ms.len(),
        distinct_declarations(mtypes),
        before.len() == mtypes.len(),
        after.len() == mtypes.len(),
        0 <= p < mtypes.len(),
        first_declared(mtypes, ms[j].receiver_type@) == p,
        forall|i: int|
            0 <= i < mtypes.len() ==> declared_type(mtypes, i, #[trigger] before[i]) && owned_callables(
                fs,
                fs.len() as int,
                ms,
                j,
                mtypes,
                known,
                mtypes[i].stainless_path@,
                before[i].callables@,
            ),
        forall|i: int| 0 <= i < mtypes.len() && i != p ==> #[trigger] after[i] == before[i],
        after[p].stainless_path == before[p].stainless_path,
        after[p].rust_path == before[p].rust_path,
        after[p].type_parameters == before[p].type_parameters,
        after[p].error_format == before[p].error_format,
        after[p].callables@ == before[p].callables@.push(c),
        method_callable(ms[j], mtypes[p].dependency@, known, c),
    ensures
        forall|i: int|
            0 <= i < mtypes.len() ==> declared_type(mtypes, i, #[trigger] after[i]) && owned_callables(
                fs,
                fs.len() as int,
                ms,
                j + 1,
                mtypes,
                known,
                mtypes[i].stainless_path@,
                after[i].callables@,
            ),
{
    let receiver = ms[j].receiver_type@;
    assert(ms.take(j + 1).drop_last() =~= ms.take(j));
    assert(ms.take(j + 1).last() == ms[j]);
    assert forall|i: int| 0 <= i < mtypes.len() implies declared_type(mtypes, i, #[trigger] after[i])
        && owned_callables(fs, fs.len() as int, ms, j + 1, mtypes, known, mtypes[i].stainless_path@, after[i].callables@) by {
        let path = mtypes[i].stainless_path@;
        let fi = owned_functions(fs.take(fs.len() as int), path);
        let mi = owned_methods(ms.take(j), path);
        let mi2 = owned_methods(ms.take(j + 1), path);
        assert(declared_type(mtypes, i, before[i]));
        assert(owned_callables(fs, fs.len() as int, ms, j, mtypes, known, path, before[i].callables@));
        if i == p {
            assert(first_declared_at(mtypes, receiver, p)) by {
                if !(exists|q: int| first_declared_at(mtypes, receiver, q)) {
                    assert(false);
                }
            }
            assert(path == receiver);
            assert(mi2 == mi.push(j));
            let cs = before[i].callables@;
            let cs2 = after[i].callables@;
            assert forall|k: int| 0 <= k < fi.len() implies function_callable(fs[fi[k]], known, #[trigger] cs2[k]) by {
                assert(cs2[k] == cs[k]);
            }
            assert forall|k: int| 0 <= k < mi2.len() implies method_callable(
                ms[mi2[k]],
                mtypes[first_declared(mtypes, path)].dependency@,
                known,
                #[trigger] cs2[fi.len() + k],
            ) by {
                if k < mi.len() {
                    assert(cs2[fi.len() + k] == cs[fi.len() + k]);
                    assert(mi2[k] == mi[k]);
                }
            }
        } else {
            lemma_only_declared(mtypes, receiver, p, i);
            assert(mi2 == mi);
        }
    }
}

/// Attaches the callable of each `[[function]]` table, in order, to its
/// owner.
fn attach_functions(manifest: &Manifest, types: &mut Vec<NativeTypeBinding>, known: &Vec<(String, usize)>) -> (r: Result<(), ManifestError>)
    requires
        distinct_declarations(manifest.types@),
        old(types)@.len() == manifest.types@.len(),
        forall|i: int|
            0 <= i < manifest.types@.len() ==> declared_type(manifest.types@, i, #[trigger] old(types)@[i])
                && old(types)@[i].callables@.len() == 0,
    ensures
        plain_error(r),
        match functions_error(manifest.functions@, manifest.types@, arity_views(known@)) {
            Some(e) => r matches Err(err) && err.message@ == e,
            None => r is Ok && final(types)@.len() == manifest.types@.len() && forall|i: int|
                0 <= i < manifest.types@.len() ==> declared_type(manifest.types@, i, #[trigger] final(types)@[i])
                    && owned_callables(
                    manifest.functions@,
                    manifest.functions@.len() as int,
                    manifest.methods@,
                    0,
                    manifest.types@,
                    arity_views(known@),
                    manifest.types@[i].stainless_path@,
                    final(types)@[i].callables@,
                ),
        },
{
    let ghost fs = manifest.functions@;
    let ghost mtypes = manifest.types@;
    let ghost kv = arity_views(known@);
    assert(fs.take(0) =~= Seq::<ManifestFunction>::empty());
    assert(manifest.methods@.take(0) =~= Seq::<ManifestMethod>::empty());
    assert(fs.skip(0) =~= fs);
    let mut j: usize = 0;
    while j < manifest.functions.len()
        invariant
            fs == manifest.functions@,
            mtypes == manifest.types@,
            kv == arity_views(known@),
            distinct_declarations(mtypes),
            j <= fs.len(),
            types@.len() == mtypes.len(),
            forall|i: int|
                0 <= i < mtypes.len() ==> declared_type(mtypes, i, #[trigger] types@[i]) && owned_callables(
                    fs,
                    j as int,
                    manifest.methods@,
                    0,
                    mtypes,
                    kv,
                    mtypes[i].stainless_path@,
                    types@[i].callables@,
                ),
            functions_error(fs, mtypes, kv) == functions_error(fs.skip(j as int), mtypes, kv),
        decreases fs.len() - j,
    {
        assert(fs.skip(j as int)[0] == fs[j as int]);
        assert(fs.skip(j as int).drop_first() =~= fs.skip(j + 1));
        let entry = &manifest.functions[j];
        validate_dependency_path(entry.dependency.as_str(), entry.rust_path.as_str(), "function Rust path")?;
        validate_stainless_path(entry.stainless_path.as_str(), "function Stainless path")?;
        let (owner, source_name) = split_callable_path(entry.stainless_path.as_str())?;
        validate_declared_owner(owner.as_str(), entry.dependency.as_str(), &manifest.types)?;
        let wrapper = wrapper_name(
            entry.dependency.as_str(),
            entry.rust_path.as_str(),
            CallStyle::AssociatedFunction,
            &entry.parameters,
            entry.return_type.text.as_str(),
        );
        let lowering = RustLowering::GeneratedWrapper {
            wrapper_name: wrapper,
            target: WrapperTarget::Function { rust_path: absolute_rust_path(entry.rust_path.as_str()) },
        };
        let c = callable(
            source_name,
            CallStyle::AssociatedFunction,
            None,
            &entry.parameters,
            &entry.return_type,
            lowering,
            known,
        )?;
        let p = match declared_index(&manifest.types, owner.as_str()) {
            Some(p) => p,
            None => {
                return Err(quoted_message("callable owner type `", owner.as_str(), "` is not declared in this manifest"));
            },
        };
        let ghost before = types@;
        let ghost attached = c;
        attach_callable(types, p, c);
        proof {
            lemma_attach_function(fs, j as int, manifest.methods@, mtypes, kv, before, types@, p as int, attached);
        }
        j = j + 1;
    }
    assert(fs.skip(fs.len() as int).len() == 0);
    Ok(())
}

/// Attaches the callable of each `[[method]]` table, in order, to its
/// receiver type.
fn attach_methods(manifest: &Manifest, types: &mut Vec<NativeTypeBinding>, known: &Vec<(String, usize)>) -> (r: Result<(), ManifestError>)
    requires
        distinct_declarations(manifest.types@),
        old(types)@.len() == manifest.types@.len(),
        forall|i: int|
            0 <= i < manifest.types@.len() ==> declared_type(manifest.types@, i, #[trigger] old(types)@[i])
                && owned_callables(
                manifest.functions@,
                manifest.functions@.len() as int,
                manifest.methods@,
                0,
                manifest.types@,
                arity_views(known@),
                manifest.types@[i].stainless_path@,
                old(types)@[i].callables@,
            ),
    ensures
        plain_error(r),
        match methods_error(manifest.methods@, manifest.types@, arity_views(known@)) {
            Some(e) => r matches Err(err) && err.message@ == e,
            None => r is Ok && final(types)@.len() == manifest.types@.len() && forall|i: int|
                0 <= i < manifest.types@.len() ==> declared_type(manifest.types@, i, #[trigger] final(types)@[i])
                    && owned_callables(
                    manifest.functions@,
                    manifest.functions@.len() as int,
                    manifest.methods@,
                    manifest.methods@.len() as int,
                    manifest.types@,
                    arity_views(known@),
                    manifest.types@[i].stainless_path@,
                    final(types)@[i].callables@,
                ),
        },
{
    let ghost fs = manifest.functions@;
    let ghost ms = manifest.methods@;
    let ghost mtypes = manifest.types@;
    let ghost kv = arity_views(known@);
    assert(ms.skip(0) =~= ms);
    let mut j: usize = 0;
    while j < manifest.methods.len()
        invariant
            fs == manifest.functions@,
            ms == manifest.methods@,
            mtypes == manifest.types@,
            kv == arity_views(known@),
            distinct_declarations(mtypes),
            j <= ms.len(),
            types@.len() == mtypes.len(),
            forall|i: int|
                0 <= i < mtypes.len() ==> declared_type(mtypes, i, #[trigger] types@[i]) && owned_callables(
                    fs,
                    fs.len() as int,
                    ms,
                    j as int,
                    mtypes,
                    kv,
                    mtypes[i].stainless_path@,
                    types@[i].callables@,
                ),
            methods_error(ms, mtypes, kv) == methods_error(ms.skip(j as int), mtypes, kv),
        decreases ms.len() - j,
    {
        assert(ms.skip(j as int)[0] == ms[j as int]);
        assert(ms.skip(j as int).drop_first() =~= ms.skip(j + 1));
        let entry = &manifest.methods[j];
        validate_stainless_identifier(entry.stainless_name.as_str(), "method Stainless name")?;
        validate_rust_identifier(entry.rust_name.as_str(), "method Rust name")?;
        let p = match declared_index(&manifest.types, entry.receiver_type.as_str()) {
            Some(p) => p,
            None => {
                return Err(quoted_message("method receiver type `", entry.receiver_type.as_str(), "` is not declared in this manifest"));
            },
        };
        let receiver = match entry.receiver {
            ManifestReceiver::Value => Receiver::Value,
            ManifestReceiver::Const => Receiver::Shared,
            ManifestReceiver::Mut => Receiver::Mutable,
        };
        let mut target = entry.receiver_type.clone();
        target.append("::");
        target.append(entry.rust_name.as_str());
        let wrapper = wrapper_name(
            manifest.types[p].dependency.as_str(),
            target.as_str(),
            CallStyle::Method,
            &entry.parameters,
            entry.return_type.text.as_str(),
        );
        let lowering = RustLowering::GeneratedWrapper {
            wrapper_name: wrapper,
            target: WrapperTarget::Method { rust_name: entry.rust_name.clone() },
        };
        let c = callable(
            entry.stainless_name.clone(),
            CallStyle::Method,
            Some(receiver),
            &entry.parameters,
            &entry.return_type,
            lowering,
            known,
        )?;
        let ghost before = types@;
        let ghost attached = c;
        attach_callable(types, p, c);
        proof {
            lemma_attach_method(fs, ms, j as int, mtypes, kv, before, types@, p as int, attached);
        }
        j = j + 1;
    }
    assert(ms.skip(ms.len() as int).len() == 0);
    Ok(())
}

} // verus!

verus! {

/// `r` is what building bindings from the decoded manifest `m` gives, with
/// signatures checked against the compiler-provided types `builtins`: the
/// first error of [`manifest_error`]; otherwise the declared types with
/// their attached callables, sorted and validated as a registry.
pub open spec fn manifest_outcome(
    m: Manifest,
    builtins: Seq<NativeTypeBinding>,
    r: Result<NativeBindings, ManifestError>,
) -> bool {
    &&& plain_error(r)
    &&& match manifest_error(m, builtins) {
        Some(e) => r matches Err(err) && err.message@ == e,
        None => exists|built: Seq<NativeTypeBinding>|
            #[trigger] manifest_types(m, manifest_arity(builtins, m.types@), built) && match registry_error(
                sort_by_path(built),
            ) {
                Some(error) => r matches Err(err) && err.message@ == "invalid binding metadata: "@
                    + binding_error_text(error),
                None => r matches Ok(b) && b@ == sort_by_path(built),
            },
    }
}

/// Builds native bindings from one decoded version-1 bindings manifest,
/// checking its signatures against the given compiler-provided types but
/// not adding them.
pub fn bindings_from_manifest_with(manifest: &Manifest, builtins: &NativeBindings) -> (r: Result<NativeBindings, ManifestError>)
    ensures
        plain_error(r),
        manifest_outcome(*manifest, builtins@, r),
{
    if manifest.schema != 1 {
        let mut text = String::from_str("unsupported bindings schema ");
        let number = crate::text::usize_decimal(manifest.schema as usize);
        text.append(number.as_str());
        text.append("; expected 1");
        return Err(ManifestError::message(text));
    }
    let mut types = declare_types(&manifest.types)?;
    proof {
        lemma_types_valid(manifest.types@, 0);
    }
    let known = arity_table(builtins, &manifest.types);
    attach_functions(manifest, &mut types, &known)?;
    attach_methods(manifest, &mut types, &known)?;
    let ghost built = types@;
    proof {
        assert(manifest.functions@.take(manifest.functions@.len() as int) =~= manifest.functions@);
        assert(manifest.methods@.take(manifest.methods@.len() as int) =~= manifest.methods@);
        assert(manifest_types(*manifest, manifest_arity(builtins@, manifest.types@), built));
    }
    match NativeBindings::new(types) {
        Ok(bindings) => Ok(bindings),
        Err(error) => {
            let mut text = String::from_str("invalid binding metadata: ");
            let detail = error.message();
            text.append(detail.as_str());
            Err(ManifestError::message(text))
        },
    }
}

/// Builds native bindings from one decoded version-1 bindings manifest
/// without adding compiler built-ins; its signatures may name the
/// compiler-provided types.
pub fn bindings_from_manifest(manifest: &Manifest) -> (r: Result<NativeBindings, ManifestError>)
    ensures
        plain_error(r),
        exists|builtins: Seq<NativeTypeBinding>|
            crate::interop::builtin::standard_registry(builtins) && #[trigger] manifest_outcome(
                *manifest,
                builtins,
                r,
            ),
{
    let builtins = match crate::interop::builtin::standard_bindings() {
        Ok(builtins) => builtins,
        Err(error) => {
            let mut text = String::from_str("invalid compiler-provided bindings: ");
            let detail = error.message();
            text.append(detail.as_str());
            return Err(ManifestError::message(text));
        },
    };
    let r = bindings_from_manifest_with(manifest, &builtins);
    assert(manifest_outcome(*manifest, builtins@, r));
    r
}

} // verus!

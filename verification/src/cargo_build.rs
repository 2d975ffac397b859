//! Cargo build-script integration: the configuration of one Stainless
//! translation unit, how its sources combine, its generated file name, the
//! toolchain check, and the Rust re-exports appended to generated code.

use crate::text::{
    chars_of, is_prefix, join_chars, join_spec, push_char, split_char, split_char_string, str_eq,
    str_has_prefix, substring,
};
use vstd::prelude::*;

verus! {

/// One Stainless free function re-exported under a stable Rust name.
#[derive(Clone, Debug, PartialEq, Eq)]
pub struct Export {
    /// `::`-separated Stainless path of the function.
    pub stainless_path: String,
    /// Rust identifier of the re-export.
    pub rust_name: String,
}

/// Configures Stainless source files compiled as one translation unit by a
/// Cargo build script.
#[derive(Clone, Debug)]
pub struct Builder {
    sources: Vec<String>,
    output_name: Option<String>,
    exports: Vec<Export>,
}

/// Failure produced while integrating Stainless into a Cargo build.
#[derive(Clone, Debug, Eq, PartialEq)]
pub struct BuildError {
    message: String,
}

impl BuildError {
    /// An error with the given message.
    pub fn new(message: String) -> (r: Self)
        ensures
            r.view() == message@,
    {
        BuildError { message }
    }

    /// The error's text.
    pub closed spec fn view(&self) -> Seq<char> {
        self.message@
    }

    /// Renders the error.
    pub fn message(&self) -> (r: &str)
        ensures
            r@ == self.view(),
    {
        self.message.as_str()
    }
}

impl Builder {
    /// The source files, in the order they are combined.
    pub closed spec fn source_paths(&self) -> Seq<Seq<char>> {
        self.sources@.map_values(|s: String| s@)
    }

    /// The configured generated file name, if one was set.
    pub closed spec fn output_name_setting(&self) -> Option<Seq<char>> {
        match self.output_name {
            Some(name) => Some(name@),
            None => None,
        }
    }

    /// The requested re-exports as (Stainless path, Rust name), in order.
    pub closed spec fn export_list(&self) -> Seq<(Seq<char>, Seq<char>)> {
        self.exports@.map_values(|e: Export| (e.stainless_path@, e.rust_name@))
    }

    /// Creates a build for `source`, relative to the consuming package root.
    pub fn new(source: &str) -> (r: Self)
        ensures
            r.source_paths() == seq![source@],
            r.output_name_setting() is None,
            r.export_list() == Seq::<(Seq<char>, Seq<char>)>::empty(),
    {
        let mut sources = Vec::new();
        sources.push(String::from_str(source));
        let r = Builder { sources, output_name: None, exports: Vec::new() };
        assert(r.source_paths() =~= seq![source@]);
        assert(r.export_list() =~= Seq::<(Seq<char>, Seq<char>)>::empty());
        r
    }

    /// Adds another source fragment to the same Stainless translation unit.
    /// Sources are concatenated in call order with a newline boundary.
    pub fn add_source(self, source: &str) -> (r: Self)
        ensures
            r.source_paths() == self.source_paths().push(source@),
            r.output_name_setting() == self.output_name_setting(),
            r.export_list() == self.export_list(),
    {
        let mut next = self;
        next.sources.push(String::from_str(source));
        assert(next.source_paths() =~= self.source_paths().push(source@));
        next
    }

    /// Overrides the generated filename written beneath Cargo's `OUT_DIR`.
    pub fn output_name(self, output_name: &str) -> (r: Self)
        ensures
            r.source_paths() == self.source_paths(),
            r.output_name_setting() == Some(output_name@),
            r.export_list() == self.export_list(),
    {
        let mut next = self;
        next.output_name = Some(String::from_str(output_name));
        next
    }

    /// Re-exports one exact, non-overloaded Stainless free function under a
    /// stable Rust name.
    pub fn export(self, stainless_path: &str, rust_name: &str) -> (r: Self)
        ensures
            r.source_paths() == self.source_paths(),
            r.output_name_setting() == self.output_name_setting(),
            r.export_list() == self.export_list().push((stainless_path@, rust_name@)),
    {
        let mut next = self;
        next.exports.push(
            Export { stainless_path: String::from_str(stainless_path), rust_name: String::from_str(rust_name) },
        );
        assert(next.export_list() =~= self.export_list().push((stainless_path@, rust_name@)));
        next
    }

    /// The source files, in order.
    pub fn sources(&self) -> (r: &Vec<String>)
        ensures
            r@.map_values(|s: String| s@) == self.source_paths(),
    {
        &self.sources
    }

    /// The configured generated file name, if one was set.
    pub fn configured_output_name(&self) -> (r: Option<&String>)
        ensures
            match r {
                Some(name) => self.output_name_setting() == Some(name@),
                None => self.output_name_setting() is None,
            },
    {
        match &self.output_name {
            Some(name) => Some(name),
            None => None,
        }
    }

    /// The requested re-exports, in order.
    pub fn exports(&self) -> (r: &Vec<Export>)
        ensures
            r@.map_values(|e: Export| (e.stainless_path@, e.rust_name@)) == self.export_list(),
    {
        &self.exports
    }
}

/// Each path between backticks, separated by `, `.
pub open spec fn display_paths_spec(paths: Seq<Seq<char>>) -> Seq<char>
    decreases paths.len(),
{
    if paths.len() == 0 {
        Seq::empty()
    } else if paths.len() == 1 {
        "`"@ + paths[0] + "`"@
    } else {
        display_paths_spec(paths.drop_last()) + ", "@ + "`"@ + paths.last() + "`"@
    }
}

/// Lists source paths for a diagnostic: each between backticks, separated
/// by `, `.
pub fn display_source_paths(paths: &Vec<String>) -> (r: String)
    ensures
        r@ == display_paths_spec(paths@.map_values(|s: String| s@)),
{
    let ghost views = paths@.map_values(|s: String| s@);
    let mut out = String::new();
    let mut i: usize = 0;
    while i < paths.len()
        invariant
            views == paths@.map_values(|s: String| s@),
            i <= paths@.len(),
            out@ == display_paths_spec(views.take(i as int)),
        decreases paths@.len() - i,
    {
        if i > 0 {
            out.append(", ");
        }
        out.append("`");
        out.append(paths[i].as_str());
        out.append("`");
        proof {
            assert(views.take(i + 1).drop_last() =~= views.take(i as int));
            assert(views.take(i + 1).last() == paths@[i as int]@);
        }
        i = i + 1;
    }
    assert(views.take(paths@.len() as int) =~= views);
    out
}

/// The combined text of source fragments: each fragment is appended, after
/// a newline when the text so far is not empty.
pub open spec fn combined_sources(fragments: Seq<Seq<char>>) -> Seq<char>
    decreases fragments.len(),
{
    if fragments.len() == 0 {
        Seq::empty()
    } else {
        let before = combined_sources(fragments.drop_last());
        if before.len() == 0 {
            fragments.last()
        } else {
            before + seq!['\n'] + fragments.last()
        }
    }
}

/// Combines source fragments into one translation unit.
pub fn combine_sources(fragments: &Vec<String>) -> (r: String)
    ensures
        r@ == combined_sources(fragments@.map_values(|s: String| s@)),
{
    let ghost views = fragments@.map_values(|s: String| s@);
    let mut combined = String::new();
    let mut i: usize = 0;
    while i < fragments.len()
        invariant
            views == fragments@.map_values(|s: String| s@),
            i <= fragments@.len(),
            combined@ == combined_sources(views.take(i as int)),
        decreases fragments@.len() - i,
    {
        if combined.as_str().unicode_len() != 0 {
            push_char(&mut combined, '\n');
        }
        combined.append(fragments[i].as_str());
        proof {
            assert(views.take(i + 1).drop_last() =~= views.take(i as int));
            assert(views.take(i + 1).last() == fragments@[i as int]@);
        }
        i = i + 1;
    }
    assert(views.take(fragments@.len() as int) =~= views);
    combined
}

} // verus!

verus! {

/// The last path piece that names something: not empty and not `.`.
pub open spec fn last_named_piece(pieces: Seq<Seq<char>>) -> Option<Seq<char>>
    decreases pieces.len(),
{
    if pieces.len() == 0 {
        None
    } else if pieces.last().len() == 0 || pieces.last() == "."@ {
        last_named_piece(pieces.drop_last())
    } else {
        Some(pieces.last())
    }
}

/// `Path::file_name` on a `/`-separated path: its last normal component.
pub open spec fn file_name_spec(path: Seq<char>) -> Option<Seq<char>> {
    match last_named_piece(split_char(path, '/')) {
        Some(piece) => if piece == ".."@ {
            None
        } else {
            Some(piece)
        },
        None => None,
    }
}

/// The last position of `c` in `s`, or -1.
pub open spec fn last_char_index(s: Seq<char>, c: char) -> int
    decreases s.len(),
{
    if s.len() == 0 {
        -1
    } else if s.last() == c {
        s.len() - 1
    } else {
        last_char_index(s.drop_last(), c)
    }
}

/// `Path::file_stem` of a file name: the part before its last `.`, unless the
/// name is `..` or its only `.` leads it.
pub open spec fn file_stem_spec(name: Seq<char>) -> Seq<char> {
    let dot = last_char_index(name, '.');
    if name == ".."@ || dot <= 0 {
        name
    } else {
        name.subrange(0, dot)
    }
}

/// The generated file name for a source: its stem, or `stainless` when the
/// path names no file, followed by `.stainless.rs`.
pub open spec fn default_output_name_spec(source: Seq<char>) -> Seq<char> {
    let stem = match file_name_spec(source) {
        Some(name) => file_stem_spec(name),
        None => "stainless"@,
    };
    stem + ".stainless.rs"@
}

/// Returns the last normal component of a `/`-separated path.
pub fn file_name(path: &str) -> (r: Option<String>)
    ensures
        match r {
            Some(name) => file_name_spec(path@) == Some(name@),
            None => file_name_spec(path@) is None,
        },
{
    let pieces = split_char_string(path, '/');
    let ghost views = pieces@.map_values(|x: String| x@);
    let mut i = pieces.len();
    assert(views.take(i as int) =~= views);
    while i > 0
        invariant
            views == pieces@.map_values(|x: String| x@),
            views == split_char(path@, '/'),
            i <= pieces@.len(),
            last_named_piece(views) == last_named_piece(views.take(i as int)),
        decreases i,
    {
        let piece = &pieces[i - 1];
        assert(views.take(i as int).last() == piece@);
        assert(views.take(i as int).drop_last() =~= views.take(i - 1));
        if piece.as_str().unicode_len() != 0 && !str_eq(piece.as_str(), ".") {
            if str_eq(piece.as_str(), "..") {
                return None;
            }
            return Some(piece.clone());
        }
        i = i - 1;
    }
    None
}

/// Returns the stem of a file name.
pub fn file_stem(name: &str) -> (r: String)
    ensures
        r@ == file_stem_spec(name@),
{
    let cs = chars_of(name);
    let mut i = cs.len();
    assert(name@.subrange(0, i as int) =~= name@);
    while i > 0 && cs[i - 1] != '.'
        invariant
            cs@ == name@,
            i <= cs@.len(),
            last_char_index(name@, '.') == last_char_index(name@.subrange(0, i as int), '.'),
        decreases i,
    {
        assert(name@.subrange(0, i as int).drop_last() =~= name@.subrange(0, i - 1));
        i = i - 1;
    }
    proof {
        if i > 0 {
            assert(name@.subrange(0, i as int).last() == '.');
        }
    }
    if str_eq(name, "..") || i <= 1 {
        return String::from_str(name);
    }
    substring(&cs, 0, i - 1)
}

/// Derives the generated file name from a source path.
pub fn default_output_name(source: &str) -> (r: String)
    ensures
        r@ == default_output_name_spec(source@),
{
    let mut stem = match file_name(source) {
        Some(name) => file_stem(name.as_str()),
        None => String::from_str("stainless"),
    };
    stem.append(".stainless.rs");
    stem
}

} // verus!

verus! {

/// A line without the `\r` of a `\r\n` ending.
pub open spec fn strip_carriage_return(line: Seq<char>) -> Seq<char> {
    if line.len() > 0 && line.last() == '\r' {
        line.drop_last()
    } else {
        line
    }
}

/// Each line without the `\r` of a `\r\n` ending.
pub open spec fn stripped_lines(lines: Seq<Seq<char>>) -> Seq<Seq<char>> {
    lines.map_values(|l: Seq<char>| strip_carriage_return(l))
}

/// The lines of `s`, as `str::lines` gives them: split at `\n`, a `\r`
/// before a `\n` dropped, and no empty line after a final `\n`.
pub open spec fn lines_spec(s: Seq<char>) -> Seq<Seq<char>> {
    let pieces = split_char(s, '\n');
    let ended = stripped_lines(pieces.drop_last());
    if pieces.last().len() == 0 {
        ended
    } else {
        ended.push(pieces.last())
    }
}

/// The text after `release: ` on the first line that starts with it.
pub open spec fn release_after(lines: Seq<Seq<char>>) -> Option<Seq<char>>
    decreases lines.len(),
{
    if lines.len() == 0 {
        None
    } else if is_prefix("release: "@, lines[0]) {
        Some(lines[0].subrange(9, lines[0].len() as int))
    } else {
        release_after(lines.drop_first())
    }
}

/// The major and minor parts of a release: its first two `.`-separated
/// pieces joined by `.`.
pub open spec fn release_minor(release: Seq<char>) -> Seq<char> {
    let parts = split_char(release, '.');
    if parts.len() >= 2 {
        parts[0] + "."@ + parts[1]
    } else {
        parts[0]
    }
}

/// Returns the lines of a text.
pub fn text_lines(s: &str) -> (r: Vec<String>)
    ensures
        r@.map_values(|x: String| x@) == lines_spec(s@),
{
    let pieces = split_char_string(s, '\n');
    let ghost views = pieces@.map_values(|x: String| x@);
    proof {
        crate::text::lemma_split_char_nonempty(s@, '\n');
    }
    let n = pieces.len();
    let mut out: Vec<String> = Vec::new();
    let mut i: usize = 0;
    while i + 1 < n
        invariant
            views == pieces@.map_values(|x: String| x@),
            views == split_char(s@, '\n'),
            n == views.len(),
            n >= 1,
            i <= n - 1,
            out@.len() == i,
            forall|k: int| 0 <= k < i ==> (#[trigger] out@[k])@ == strip_carriage_return(views[k]),
        decreases n - i,
    {
        let cs = chars_of(pieces[i].as_str());
        let len = cs.len();
        let line = if len > 0 && cs[len - 1] == '\r' {
            substring(&cs, 0, len - 1)
        } else {
            substring(&cs, 0, len)
        };
        assert(cs@.subrange(0, len as int) =~= cs@);
        assert(cs@ == views[i as int]);
        if len > 0 {
            assert(cs@.subrange(0, len - 1) =~= cs@.drop_last());
        }
        assert(line@ == strip_carriage_return(views[i as int]));
        out.push(line);
        i = i + 1;
    }
    assert(out@.map_values(|x: String| x@) =~= stripped_lines(views.drop_last()));
    if pieces[n - 1].as_str().unicode_len() != 0 {
        let ghost before = out@;
        out.push(pieces[n - 1].clone());
        assert(out@.map_values(|x: String| x@) =~= before.map_values(|x: String| x@).push(
            views.last(),
        ));
    }
    out
}

/// Checks the `rustc -Vv` report against the Rust release that the native
/// bindings describe.
pub fn check_rustc_release(version: &str) -> (r: Result<(), BuildError>)
    ensures
        match release_after(lines_spec(version@)) {
            None => r matches Err(e) && e.view() == "rustc `-Vv` did not report a release"@,
            Some(release) => if release_minor(release) == crate::SUPPORTED_RUST_MINOR@ {
                r is Ok
            } else {
                r matches Err(e) && e.view() == "Stainless's native bindings target Rust "@
                    + crate::SUPPORTED_RUST_MINOR@ + ", but the active rustc reports "@ + release
                    + "; select a matching Rust toolchain or Stainless compiler release"@
            },
        },
{
    let lines = text_lines(version);
    let ghost views = lines@.map_values(|x: String| x@);
    let mut i: usize = 0;
    assert(views.subrange(0, views.len() as int) =~= views);
    while i < lines.len()
        invariant
            views == lines@.map_values(|x: String| x@),
            views == lines_spec(version@),
            i <= views.len(),
            release_after(views) == release_after(views.subrange(i as int, views.len() as int)),
        decreases views.len() - i,
    {
        assert(views.subrange(i as int, views.len() as int)[0] == lines@[i as int]@);
        assert(views.subrange(i as int, views.len() as int).drop_first() =~= views.subrange(
            i + 1,
            views.len() as int,
        ));
        if str_has_prefix(lines[i].as_str(), "release: ") {
            let cs = chars_of(lines[i].as_str());
            proof {
                reveal_strlit("release: ");
            }
            let release = substring(&cs, 9, cs.len());
            let parts = split_char_string(release.as_str(), '.');
            proof {
                crate::text::lemma_split_char_nonempty(release@, '.');
            }
            let mut minor = parts[0].clone();
            if parts.len() >= 2 {
                minor.append(".");
                minor.append(parts[1].as_str());
            }
            if str_eq(minor.as_str(), crate::SUPPORTED_RUST_MINOR) {
                return Ok(());
            }
            let mut text = String::from_str("Stainless's native bindings target Rust ");
            text.append(crate::SUPPORTED_RUST_MINOR);
            text.append(", but the active rustc reports ");
            text.append(release.as_str());
            text.append("; select a matching Rust toolchain or Stainless compiler release");
            return Err(BuildError::new(text));
        }
        i = i + 1;
    }
    Err(BuildError::new(String::from_str("rustc `-Vv` did not report a release")))
}

/// Checks that an output name is one plain file name.
pub fn check_output_name(output_name: &str) -> (r: Result<(), BuildError>)
    ensures
        r is Ok <==> file_name_spec(output_name@) == Some(output_name@),
        r matches Err(e) ==> e.view() == "the Stainless output name must be one plain UTF-8 filename"@,
{
    match file_name(output_name) {
        Some(name) => if str_eq(name.as_str(), output_name) {
            return Ok(());
        },
        None => {},
    }
    Err(BuildError::new(String::from_str("the Stainless output name must be one plain UTF-8 filename")))
}

} // verus!

verus! {

/// What the build needs to know of one resolved Stainless function to
/// re-export it.
#[derive(Clone, Debug, PartialEq, Eq)]
pub struct ExportableFunction {
    /// Namespaces and name of the function.
    pub path: Vec<String>,
    /// Rust identifier of the generated function.
    pub mangled_name: String,
    /// Whether the function has no receiver.
    pub is_free: bool,
    /// Whether the source defines the function rather than only declaring it.
    pub has_definition: bool,
}

/// The non-empty pieces of a list, in order.
pub open spec fn nonempty_pieces(pieces: Seq<Seq<char>>) -> Seq<Seq<char>>
    decreases pieces.len(),
{
    if pieces.len() == 0 {
        Seq::empty()
    } else if pieces.last().len() > 0 {
        nonempty_pieces(pieces.drop_last()).push(pieces.last())
    } else {
        nonempty_pieces(pieces.drop_last())
    }
}

/// The segments of a Stainless export path: its non-empty `::` pieces.
pub open spec fn export_segments(path: Seq<char>) -> Seq<Seq<char>> {
    nonempty_pieces(crate::text::split_path(path))
}

/// An export path is well formed when it has segments and is exactly their
/// `::` joining.
pub open spec fn valid_export_path(path: Seq<char>) -> bool {
    export_segments(path).len() > 0 && join_chars(export_segments(path), "::"@) == path
}

/// A free, defined function whose path is `segments`.
pub open spec fn exports_as(f: ExportableFunction, segments: Seq<Seq<char>>) -> bool {
    f.is_free && f.has_definition && f.path@.map_values(|s: String| s@) == segments
}

/// How many of `fs` export as `segments`.
pub open spec fn export_matches(fs: Seq<ExportableFunction>, segments: Seq<Seq<char>>) -> nat
    decreases fs.len(),
{
    if fs.len() == 0 {
        0
    } else {
        export_matches(fs.drop_last(), segments) + if exports_as(fs.last(), segments) {
            1nat
        } else {
            0nat
        }
    }
}

/// The generated Rust path of a function: `crate`, a generated module per
/// namespace, and the mangled name.
pub open spec fn export_target(path: Seq<String>, mangled_name: Seq<char>) -> Seq<char> {
    "crate"@ + crate::hir_lowering::namespace_modules(path, path.len() - 1) + "::"@ + mangled_name
}

/// The lines appended to generated Rust for one re-export.
pub open spec fn export_text(target: Seq<char>, rust_name: Seq<char>) -> Seq<char> {
    "\n#[allow(unused_imports)]\npub use "@ + target + " as "@ + rust_name + ";\n"@
}

/// Splits an export path into its segments.
fn export_path_segments(path: &str) -> (r: Vec<String>)
    ensures
        r@.map_values(|s: String| s@) == export_segments(path@),
{
    let pieces = crate::text::split_path_string(path);
    let ghost views = pieces@.map_values(|s: String| s@);
    let mut out: Vec<String> = Vec::new();
    let mut i: usize = 0;
    while i < pieces.len()
        invariant
            views == pieces@.map_values(|s: String| s@),
            views == crate::text::split_path(path@),
            i <= views.len(),
            out@.map_values(|s: String| s@) == nonempty_pieces(views.take(i as int)),
        decreases views.len() - i,
    {
        assert(views.take(i + 1).drop_last() =~= views.take(i as int));
        assert(views.take(i + 1).last() == pieces@[i as int]@);
        if pieces[i].as_str().unicode_len() > 0 {
            let ghost before = out@;
            out.push(pieces[i].clone());
            assert(out@.map_values(|s: String| s@) =~= before.map_values(|s: String| s@).push(
                pieces@[i as int]@,
            ));
        }
        i = i + 1;
    }
    assert(views.take(views.len() as int) =~= views);
    out
}

/// Whether two string lists hold the same characters, element by element.
fn same_strings(a: &Vec<String>, b: &Vec<String>) -> (r: bool)
    ensures
        r == (a@.map_values(|s: String| s@) == b@.map_values(|s: String| s@)),
{
    if a.len() != b.len() {
        assert(a@.map_values(|s: String| s@).len() != b@.map_values(|s: String| s@).len());
        return false;
    }
    let mut i: usize = 0;
    while i < a.len()
        invariant
            a@.len() == b@.len(),
            i <= a@.len(),
            forall|k: int| 0 <= k < i ==> (#[trigger] a@[k])@ == b@[k]@,
        decreases a@.len() - i,
    {
        if a[i] != b[i] {
            assert(a@.map_values(|s: String| s@)[i as int] != b@.map_values(|s: String| s@)[i as int]);
            return false;
        }
        i = i + 1;
    }
    assert(a@.map_values(|s: String| s@) =~= b@.map_values(|s: String| s@));
    true
}

/// Appends a `pub use` re-export of the one free, defined function at the
/// export's Stainless path.
pub fn append_export(generated: &mut String, functions: &Vec<ExportableFunction>, export: &Export) -> (r: Result<(), BuildError>)
    ensures
        match crate::interop::manifest::syn_ident_parse(export.rust_name@) {
            Err(error) => r matches Err(e) && e.view() == "invalid Rust export name `"@
                + export.rust_name@ + "`: "@ + error && final(generated)@ == old(generated)@,
            Ok(()) => if !valid_export_path(export.stainless_path@) {
                r matches Err(e) && e.view() == "invalid Stainless export path `"@
                    + export.stainless_path@ + "`"@ && final(generated)@ == old(generated)@
            } else if export_matches(functions@, export_segments(export.stainless_path@)) == 0 {
                r matches Err(e) && e.view() == "cannot export missing Stainless free function `"@
                    + export.stainless_path@ + "`"@ && final(generated)@ == old(generated)@
            } else if export_matches(functions@, export_segments(export.stainless_path@)) > 1 {
                r matches Err(e) && e.view() == "cannot export overloaded Stainless function `"@
                    + export.stainless_path@ + "` without a signature"@ && final(generated)@
                    == old(generated)@
            } else {
                r is Ok && exists|i: int|
                    0 <= i < functions@.len() && exports_as(
                        #[trigger] functions@[i],
                        export_segments(export.stainless_path@),
                    ) && final(generated)@ == old(generated)@ + export_text(
                        export_target(functions@[i].path@, functions@[i].mangled_name@),
                        export.rust_name@,
                    )
            },
        },
{
    if let Err(error) = crate::interop::manifest::parse_rust_ident(export.rust_name.as_str()) {
        let mut text = String::from_str("invalid Rust export name `");
        text.append(export.rust_name.as_str());
        text.append("`: ");
        text.append(error.as_str());
        return Err(BuildError::new(text));
    }
    let segments = export_path_segments(export.stainless_path.as_str());
    let joined = crate::text::join_strings(&segments, "::");
    proof {
        crate::text::lemma_join_views(segments@, "::"@);
    }
    if segments.len() == 0 || !str_eq(joined.as_str(), export.stainless_path.as_str()) {
        let mut text = String::from_str("invalid Stainless export path `");
        text.append(export.stainless_path.as_str());
        text.append("`");
        return Err(BuildError::new(text));
    }
    let ghost wanted = export_segments(export.stainless_path@);
    let mut found: Option<usize> = None;
    let mut count: usize = 0;
    let mut i: usize = 0;
    while i < functions.len()
        invariant
            segments@.map_values(|s: String| s@) == wanted,
            i <= functions@.len(),
            count == export_matches(functions@.take(i as int), wanted),
            count <= i,
            count == 0 <==> found is None,
            found matches Some(j) ==> j < i && exports_as(functions@[j as int], wanted),
        decreases functions@.len() - i,
    {
        let f = &functions[i];
        assert(functions@.take(i + 1).drop_last() =~= functions@.take(i as int));
        assert(functions@.take(i + 1).last() == functions@[i as int]);
        if f.is_free && f.has_definition && same_strings(&f.path, &segments) {
            if found.is_none() {
                found = Some(i);
            }
            count = count + 1;
        }
        i = i + 1;
    }
    assert(functions@.take(functions@.len() as int) =~= functions@);
    if count == 0 {
        let mut text = String::from_str("cannot export missing Stainless free function `");
        text.append(export.stainless_path.as_str());
        text.append("`");
        return Err(BuildError::new(text));
    }
    if count > 1 {
        let mut text = String::from_str("cannot export overloaded Stainless function `");
        text.append(export.stainless_path.as_str());
        text.append("` without a signature");
        return Err(BuildError::new(text));
    }
    let index = match found {
        Some(j) => j,
        None => 0,
    };
    let function = &functions[index];
    let n = function.path.len();
    let mut target = String::from_str("crate");
    let mut k: usize = 0;
    while k + 1 < n
        invariant
            n == function.path@.len(),
            k <= n,
            n >= 1 ==> k <= n - 1,
            target@ == "crate"@ + crate::hir_lowering::namespace_modules(function.path@, k as int),
        decreases n - k,
    {
        target.append("::");
        target.append("__stainless_namespace_");
        target.append(function.path[k].as_str());
        assert(target@ =~= "crate"@ + crate::hir_lowering::namespace_modules(function.path@, k + 1));
        k = k + 1;
    }
    target.append("::");
    target.append(function.mangled_name.as_str());
    generated.append("\n#[allow(unused_imports)]\npub use ");
    generated.append(target.as_str());
    generated.append(" as ");
    generated.append(export.rust_name.as_str());
    generated.append(";\n");
    Ok(())
}

} // verus!

//! The directive grammar. A directive line is optional whitespace, `#`,
//! optional whitespace, then a keyword. `ifdef`/`ifndef` take a flag name (a
//! non-empty run of word characters, anything after it ignored); `else` and
//! `endif` ignore the rest of the line; `import` takes either a quoted path
//! (first character after the keyword's whitespace is `"`, content runs to the
//! last `"` of the line and must be non-empty) or, failing that, a bare
//! reference (the rest of the line, trimmed, which must be non-empty). Lines
//! matching no pattern are plain text.

use vstd::prelude::*;

use crate::text::{
    has_at, has_at_exec, last_quote, last_quote_exec, lemma_last_quote, lines_of, rskip_ws,
    rskip_ws_exec, skip_ws, skip_ws_exec, word_end, word_end_exec,
};

verus! {

/// A reference to another shader unit, as written in an import directive:
/// either a quoted asset path or a bare custom identifier. Two references are
/// equal exactly when they have the same variant and the same text.
#[derive(Debug, Hash)]
pub enum ShaderImport {
    AssetPath(String),
    Custom(String),
}

/// The mathematical value of a `ShaderImport`.
pub enum ImportRefView {
    AssetPath(Seq<char>),
    Custom(Seq<char>),
}

impl View for ShaderImport {
    type V = ImportRefView;

    open spec fn view(&self) -> ImportRefView {
        match self {
            ShaderImport::AssetPath(s) => ImportRefView::AssetPath(s@),
            ShaderImport::Custom(s) => ImportRefView::Custom(s@),
        }
    }
}

impl PartialEq for ShaderImport {
    fn eq(&self, other: &Self) -> (r: bool) {
        match (self, other) {
            (ShaderImport::AssetPath(a), ShaderImport::AssetPath(b)) => *a == *b,
            (ShaderImport::Custom(a), ShaderImport::Custom(b)) => *a == *b,
            _ => false,
        }
    }
}

impl Eq for ShaderImport {}

impl vstd::std_specs::cmp::PartialEqSpecImpl for ShaderImport {
    open spec fn obeys_eq_spec() -> bool {
        true
    }

    open spec fn eq_spec(&self, other: &Self) -> bool {
        self@ == other@
    }
}

impl Clone for ShaderImport {
    fn clone(&self) -> (r: Self)
        ensures
            r == self,
    {
        match self {
            ShaderImport::AssetPath(s) => ShaderImport::AssetPath(s.clone()),
            ShaderImport::Custom(s) => ShaderImport::Custom(s.clone()),
        }
    }
}

// ---------------------------------------------------------------------------
// Grammar, specification side.
// ---------------------------------------------------------------------------

pub open spec fn kw_ifdef() -> Seq<char> {
    seq!['i', 'f', 'd', 'e', 'f']
}

pub open spec fn kw_ifndef() -> Seq<char> {
    seq!['i', 'f', 'n', 'd', 'e', 'f']
}

pub open spec fn kw_else() -> Seq<char> {
    seq!['e', 'l', 's', 'e']
}

pub open spec fn kw_endif() -> Seq<char> {
    seq!['e', 'n', 'd', 'i', 'f']
}

pub open spec fn kw_import() -> Seq<char> {
    seq!['i', 'm', 'p', 'o', 'r', 't']
}

/// Index of the first character after the `#` introducer and its surrounding
/// whitespace, or `-1` if the line does not start (modulo whitespace) with `#`.
pub open spec fn body_index(line: Seq<char>) -> int {
    let h = skip_ws(line, 0);
    if h < line.len() && line[h] == '#' {
        skip_ws(line, h + 1)
    } else {
        -1
    }
}

/// Whether the line is a `#` directive whose keyword is `kw`.
pub open spec fn kw_at(line: Seq<char>, kw: Seq<char>) -> bool {
    body_index(line) >= 0 && has_at(line, body_index(line), kw)
}

/// Index of the first character after keyword `kw` of a directive line.
pub open spec fn after_kw(line: Seq<char>, kw: Seq<char>) -> int {
    body_index(line) + kw.len()
}

/// The flag name following position `from`: optional whitespace, then a
/// non-empty maximal run of word characters.
pub open spec fn parse_name(line: Seq<char>, from: int) -> Option<Seq<char>> {
    let j = skip_ws(line, from);
    let k = word_end(line, j);
    if k > j {
        Some(line.subrange(j, k))
    } else {
        None
    }
}

pub open spec fn parse_ifdef(line: Seq<char>) -> Option<Seq<char>> {
    if kw_at(line, kw_ifdef()) {
        parse_name(line, after_kw(line, kw_ifdef()))
    } else {
        None
    }
}

pub open spec fn parse_ifndef(line: Seq<char>) -> Option<Seq<char>> {
    if kw_at(line, kw_ifndef()) {
        parse_name(line, after_kw(line, kw_ifndef()))
    } else {
        None
    }
}

pub open spec fn is_else_line(line: Seq<char>) -> bool {
    kw_at(line, kw_else())
}

pub open spec fn is_endif_line(line: Seq<char>) -> bool {
    kw_at(line, kw_endif())
}

/// The quoted form: after `import` and optional whitespace the next character
/// is `"`, and the (non-empty) path runs to the last `"` of the line.
pub open spec fn parse_import_quoted(line: Seq<char>) -> Option<Seq<char>> {
    if kw_at(line, kw_import()) {
        let q = skip_ws(line, after_kw(line, kw_import()));
        if q < line.len() && line[q] == '"' {
            let l = last_quote(line, line.len() as int);
            if l >= q + 2 {
                Some(line.subrange(q + 1, l))
            } else {
                None
            }
        } else {
            None
        }
    } else {
        None
    }
}

/// The bare form: everything after `import`, trimmed of surrounding
/// whitespace, which must be non-empty.
pub open spec fn parse_import_bare(line: Seq<char>) -> Option<Seq<char>> {
    if kw_at(line, kw_import()) {
        let st = skip_ws(line, after_kw(line, kw_import()));
        let en = rskip_ws(line, line.len() as int);
        if st < en {
            Some(line.subrange(st, en))
        } else {
            None
        }
    } else {
        None
    }
}

/// The import reference a line carries, quoted form taking precedence.
pub open spec fn import_of_line(line: Seq<char>) -> Option<ImportRefView> {
    match parse_import_quoted(line) {
        Some(p) => Some(ImportRefView::AssetPath(p)),
        None => match parse_import_bare(line) {
            Some(r) => Some(ImportRefView::Custom(r)),
            None => None,
        },
    }
}

/// What a line means to the preprocessor, first match in this order wins.
pub enum LineKind {
    Ifdef(Seq<char>),
    Ifndef(Seq<char>),
    ElseMark,
    EndifMark,
    ImportMark(ImportRefView),
    Text,
}

pub open spec fn classify(line: Seq<char>) -> LineKind {
    match parse_ifdef(line) {
        Some(n) => LineKind::Ifdef(n),
        None => match parse_ifndef(line) {
            Some(n) => LineKind::Ifndef(n),
            None => if is_else_line(line) {
                LineKind::ElseMark
            } else if is_endif_line(line) {
                LineKind::EndifMark
            } else {
                match import_of_line(line) {
                    Some(i) => LineKind::ImportMark(i),
                    None => LineKind::Text,
                }
            },
        },
    }
}

/// The ordered list of import references in the lines of `text`, duplicates
/// kept, first-occurrence order. Conditional directives are not interpreted.
pub open spec fn extract_from_lines(lines: Seq<Seq<char>>, n: int) -> Seq<ImportRefView>
    decreases n,
{
    if n <= 0 {
        Seq::empty()
    } else {
        extract_from_lines(lines, n - 1) + match import_of_line(lines[n - 1]) {
            Some(i) => seq![i],
            None => Seq::<ImportRefView>::empty(),
        }
    }
}

pub open spec fn extract_imports(text: Seq<char>) -> Seq<ImportRefView> {
    extract_from_lines(lines_of(text), lines_of(text).len() as int)
}

/// Views of a list of owned import references.
pub open spec fn refs_of(v: Seq<ShaderImport>) -> Seq<ImportRefView> {
    v.map_values(|x: ShaderImport| x@)
}

/// If line `k` carries an import, that import is in the extracted list.
pub proof fn lemma_extract_contains(lines: Seq<Seq<char>>, n: int, k: int, imp: ImportRefView)
    requires
        0 <= k < n,
        import_of_line(lines[k]) == Some(imp),
    ensures
        extract_from_lines(lines, n).contains(imp),
    decreases n,
{
    if k == n - 1 {
        assert(extract_from_lines(lines, n)[extract_from_lines(lines, n - 1).len() as int]
            == imp);
    } else {
        lemma_extract_contains(lines, n - 1, k, imp);
        let prev = extract_from_lines(lines, n - 1);
        let i = choose|i: int| 0 <= i < prev.len() && prev[i] == imp;
        assert(extract_from_lines(lines, n)[i] == imp);
    }
}

// ---------------------------------------------------------------------------
// Grammar, executable side.
// ---------------------------------------------------------------------------

/// An analysed line, carrying owned copies of the matched pieces.
pub enum DirLine {
    Ifdef(String),
    Ifndef(String),
    ElseMark,
    EndifMark,
    ImportMark(ShaderImport),
    Text,
}

impl View for DirLine {
    type V = LineKind;

    open spec fn view(&self) -> LineKind {
        match self {
            DirLine::Ifdef(n) => LineKind::Ifdef(n@),
            DirLine::Ifndef(n) => LineKind::Ifndef(n@),
            DirLine::ElseMark => LineKind::ElseMark,
            DirLine::EndifMark => LineKind::EndifMark,
            DirLine::ImportMark(i) => LineKind::ImportMark(i@),
            DirLine::Text => LineKind::Text,
        }
    }
}

/// Checks for the `#` introducer followed by keyword `kw`, returning the index
/// after the keyword.
fn match_keyword(line: &str, n: usize, kw: &str, m: usize) -> (r: Option<usize>)
    requires
        n == line@.len(),
        m == kw@.len(),
    ensures
        match r {
            Some(a) => kw_at(line@, kw@) && a == after_kw(line@, kw@) && a <= n,
            None => !kw_at(line@, kw@),
        },
{
    let h = skip_ws_exec(line, 0, n);
    if h < n && line.get_char(h) == '#' {
        let b = skip_ws_exec(line, h + 1, n);
        if has_at_exec(line, n, b, kw, m) {
            Some(b + m)
        } else {
            None
        }
    } else {
        None
    }
}

/// Parses the flag name after an `ifdef`/`ifndef` keyword.
fn parse_name_exec(line: &str, n: usize, from: usize) -> (r: Option<String>)
    requires
        n == line@.len(),
        from <= n,
    ensures
        match r {
            Some(name) => parse_name(line@, from as int) == Some(name@),
            None => parse_name(line@, from as int) is None,
        },
{
    let j = skip_ws_exec(line, from, n);
    let k = word_end_exec(line, j, n);
    if k > j {
        Some(line.substring_char(j, k).to_owned())
    } else {
        None
    }
}

/// Classifies one line of source text.
pub fn classify_line(line: &str) -> (r: DirLine)
    ensures
        r@ == classify(line@),
{
    let n = line.unicode_len();
    proof {
        reveal_strlit("ifdef");
        reveal_strlit("ifndef");
        reveal_strlit("else");
        reveal_strlit("endif");
        reveal_strlit("import");
        assert("ifdef"@ =~= kw_ifdef());
        assert("ifndef"@ =~= kw_ifndef());
        assert("else"@ =~= kw_else());
        assert("endif"@ =~= kw_endif());
        assert("import"@ =~= kw_import());
    }
    if let Some(a) = match_keyword(line, n, "ifdef", 5) {
        if let Some(name) = parse_name_exec(line, n, a) {
            return DirLine::Ifdef(name);
        }
    }
    if let Some(a) = match_keyword(line, n, "ifndef", 6) {
        if let Some(name) = parse_name_exec(line, n, a) {
            return DirLine::Ifndef(name);
        }
    }
    if let Some(_) = match_keyword(line, n, "else", 4) {
        return DirLine::ElseMark;
    }
    if let Some(_) = match_keyword(line, n, "endif", 5) {
        return DirLine::EndifMark;
    }
    if let Some(imp) = parse_import_exec(line, n) {
        return DirLine::ImportMark(imp);
    }
    DirLine::Text
}

/// Parses an import directive line, quoted form first.
pub fn parse_import_exec(line: &str, n: usize) -> (r: Option<ShaderImport>)
    requires
        n == line@.len(),
    ensures
        match r {
            Some(i) => import_of_line(line@) == Some(i@),
            None => import_of_line(line@) is None,
        },
{
    proof {
        reveal_strlit("import");
        assert("import"@ =~= kw_import());
    }
    let a = match match_keyword(line, n, "import", 6) {
        Some(a) => a,
        None => {
            return None;
        },
    };
    let q = skip_ws_exec(line, a, n);
    if q < n && line.get_char(q) == '"' {
        proof {
            lemma_last_quote(line@, n as int);
        }
        if let Some(l) = last_quote_exec(line, n, n) {
            if l >= 2 && q <= l - 2 {
                let path = line.substring_char(q + 1, l).to_owned();
                return Some(ShaderImport::AssetPath(path));
            }
        }
    }
    let en = rskip_ws_exec(line, n, n);
    if q < en {
        let rest = line.substring_char(q, en).to_owned();
        Some(ShaderImport::Custom(rest))
    } else {
        None
    }
}

// ---------------------------------------------------------------------------
// The extractor.
// ---------------------------------------------------------------------------

/// Scans raw shader text for import directives. It holds no state: the
/// patterns it applies are fixed by the grammar above.
pub struct ShaderImportProcessor {}

impl Default for ShaderImportProcessor {
    fn default() -> (r: Self)
        ensures
            r == (ShaderImportProcessor {}),
    {
        ShaderImportProcessor {}
    }
}

impl ShaderImportProcessor {
    /// The ordered list of import references in `shader`, duplicates kept.
    /// Extraction depends on the text alone: identical text always yields the
    /// identical list.
    pub fn get_imports_from_str(&self, shader: &str) -> (r: Vec<ShaderImport>)
        ensures
            refs_of(r@) == extract_imports(shader@),
    {
        let lines = crate::lines::split_lines(shader);
        let ghost lns = lines_of(shader@);
        let mut imports: Vec<ShaderImport> = Vec::new();
        let mut k: usize = 0;
        while k < lines.len()
            invariant
                crate::lines::strs_view(lines@) == lns,
                lns == lines_of(shader@),
                k <= lines@.len(),
                lines@.len() == lns.len(),
                refs_of(imports@) == extract_from_lines(lns, k as int),
            decreases lines@.len() - k,
        {
            let line: &str = lines[k];
            assert(line@ == lns[k as int]);
            let n = line.unicode_len();
            let ghost before = imports@;
            match parse_import_exec(line, n) {
                Some(i) => {
                    imports.push(i);
                    proof {
                        assert(refs_of(imports@) =~= refs_of(before).push(imports@.last()@));
                        assert(refs_of(imports@) =~= extract_from_lines(lns, k + 1));
                    }
                },
                None => {
                    proof {
                        assert(refs_of(imports@) =~= extract_from_lines(lns, k + 1));
                    }
                },
            }
            k = k + 1;
        }
        proof {
            assert(extract_imports(shader@) == extract_from_lines(lns, lns.len() as int));
        }
        imports
    }
}

} // verus!

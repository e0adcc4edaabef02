//! Source code as knowledge: the symbols extracted from a source file and
//! the knowledge items, one HTML file per source file, they become.
//!
//! A symbol becomes an item whose relations point at the ids of the symbols
//! it calls (`calls`) and of the symbols its file imports (`uses`); calls
//! and imports are resolved by name through a name index.
use vstd::prelude::*;
use crate::clock::Timestamp;
use crate::ids::{is_ulid_text, new_id};
use crate::decimal::{decimal, usize_to_string};
use crate::html_emit::{emit_section, escape, escape_attr, section_html};
use crate::schema::{
    KnowledgeRecord, KnowledgeType, Relation, Scope, SourceType, Stability, Status,
};
use crate::text::{
    char_vec, join, join_strings, slice_chars, str_eq, string_from_chars, strings_view,
    to_owned_string,
};

verus! {

/// Kind of source-level symbol.
#[derive(Debug, Clone, Copy, PartialEq, Eq, Structural)]
pub enum SymbolKind {
    Function,
    Struct,
    Impl,
    Trait,
    Enum,
    Module,
}

impl SymbolKind {
    pub open spec fn name(self) -> Seq<char> {
        match self {
            SymbolKind::Function => "function"@,
            SymbolKind::Struct => "struct"@,
            SymbolKind::Impl => "impl"@,
            SymbolKind::Trait => "trait"@,
            SymbolKind::Enum => "enum"@,
            SymbolKind::Module => "module"@,
        }
    }

    pub fn as_str(self) -> (r: &'static str)
        ensures
            r@ == self.name(),
    {
        match self {
            SymbolKind::Function => "function",
            SymbolKind::Struct => "struct",
            SymbolKind::Impl => "impl",
            SymbolKind::Trait => "trait",
            SymbolKind::Enum => "enum",
            SymbolKind::Module => "module",
        }
    }

    /// Functions are methods; every other symbol is a definition.
    pub open spec fn knowledge_type_name(self) -> Seq<char> {
        match self {
            SymbolKind::Function => "method"@,
            _ => "definition"@,
        }
    }

    pub fn knowledge_type(self) -> (r: &'static str)
        ensures
            r@ == self.knowledge_type_name(),
    {
        match self {
            SymbolKind::Function => "method",
            _ => "definition",
        }
    }
}

/// One top-level definition extracted from a source file.
#[derive(Debug)]
pub struct CodeSymbol {
    pub name: String,
    /// `module::path::name`
    pub qualified_name: String,
    pub kind: SymbolKind,
    /// POSIX, relative to the project root.
    pub file_path: String,
    /// 1-based, inclusive.
    pub start_line: usize,
    /// 1-based, inclusive.
    pub end_line: usize,
    /// Verbatim source text of the symbol.
    pub body: String,
    /// Names this symbol calls directly.
    pub calls: Vec<String>,
    /// Paths in `use` statements of the file.
    pub imports: Vec<String>,
    /// Language identifier (rust, python, ...).
    pub language: String,
}

impl CodeSymbol {
    /// Slug used in `<code class="language-...">`.
    pub fn language_slug(&self) -> (r: &str)
        ensures
            r@ == self.language@,
    {
        self.language.as_str()
    }
}

// ---------------------------------------------------------------------------
// Names and paths
// ---------------------------------------------------------------------------
/// `a::b::name` from the enclosing path and the name.
pub open spec fn qualified_spec(path: Seq<Seq<char>>, name: Seq<char>) -> Seq<char> {
    if path.len() == 0 {
        name
    } else {
        join(path, "::"@) + "::"@ + name
    }
}

pub fn qualified(path_stack: &Vec<String>, name: &str) -> (r: String)
    ensures
        r@ == qualified_spec(strings_view(path_stack@), name@),
{
    if path_stack.len() == 0 {
        to_owned_string(name)
    } else {
        let mut r = join_strings(path_stack, "::");
        r.append("::");
        r.append(name);
        r
    }
}

/// HTML escaping of text content.
pub fn escape_html(s: &str) -> (r: String)
    ensures
        r@ == escape(s@),
{
    escape_attr(s)
}

/// A source path flattened to one file name: `/` and `\` become `__`.
pub open spec fn flatten_path(s: Seq<char>) -> Seq<char>
    decreases s.len(),
{
    if s.len() == 0 {
        Seq::empty()
    } else {
        flatten_path(s.drop_last()) + (if s.last() == '/' || s.last() == '\\' {
            seq!['_', '_']
        } else {
            seq![s.last()]
        })
    }
}

/// `code/<project>/<flattened source path>.html`, the vault file of a
/// source file.
pub open spec fn code_html_path_spec(project: Seq<char>, src_rel: Seq<char>) -> Seq<char> {
    "code/"@ + project + seq!['/'] + flatten_path(src_rel) + ".html"@
}

pub fn code_html_path(project: &str, src_rel: &str) -> (r: String)
    ensures
        r@ == code_html_path_spec(project@, src_rel@),
{
    let mut r = String::new();
    r.append("code/");
    r.append(project);
    r.push('/');
    let ghost head = r@;
    let cs = char_vec(src_rel);
    let mut i: usize = 0;
    while i < cs.len()
        invariant
            i <= cs.len(),
            r@ == head + flatten_path(cs@.take(i as int)),
        decreases cs.len() - i,
    {
        assert(cs@.take(i + 1).drop_last() =~= cs@.take(i as int));
        let c = cs[i];
        if c == '/' || c == '\\' {
            r.push('_');
            r.push('_');
        } else {
            r.push(c);
        }
        i += 1;
    }
    assert(cs@.take(cs.len() as int) =~= src_rel@);
    r.append(".html");
    r
}

/// The flattened path has no directory separators left.
pub proof fn lemma_flatten_path_flat(s: Seq<char>)
    ensures
        forall|i: int|
            0 <= i < flatten_path(s).len() ==> #[trigger] flatten_path(s)[i] != '/'
                && flatten_path(s)[i] != '\\',
    decreases s.len(),
{
    if s.len() > 0 {
        lemma_flatten_path_flat(s.drop_last());
        let p = flatten_path(s.drop_last());
        let q = flatten_path(s);
        assert forall|i: int| 0 <= i < q.len() implies #[trigger] q[i] != '/' && q[i] != '\\' by {
            if i < p.len() {
                assert(q[i] == p[i]);
            }
        }
    }
}

/// `\` replaced by `/`.
pub open spec fn posix_seps(s: Seq<char>) -> Seq<char> {
    s.map_values(|c: char| if c == '\\' { '/' } else { c })
}

/// The path of `path` relative to `base`, as `Path::strip_prefix` gives it
/// (whole components), if `base` is a prefix.
pub uninterp spec fn path_relative_to(path: Seq<char>, base: Seq<char>) -> Option<Seq<char>>;

/// `Path::strip_prefix`, on paths given as text.
#[verifier::external_body]
fn strip_path_prefix(path: &str, base: &str) -> (r: Option<String>)
    ensures
        match r {
            Some(s) => path_relative_to(path@, base@) == Some(s@),
            None => path_relative_to(path@, base@) is None,
        },
{
    let rel = std::path::Path::new(path).strip_prefix(base).ok()?;
    Some(rel.to_string_lossy().into_owned())
}

/// A path relative to `base` (the path itself when it is not under
/// `base`), with `/` as separator.
pub fn relative_posix(path: &str, base: &str) -> (r: String)
    ensures
        r@ == posix_seps(
            match path_relative_to(path@, base@) {
                Some(rel) => rel,
                None => path@,
            },
        ),
{
    let rel = match strip_path_prefix(path, base) {
        Some(r) => r,
        None => to_owned_string(path),
    };
    let cs = char_vec(rel.as_str());
    let mut out: Vec<char> = Vec::new();
    let mut i: usize = 0;
    while i < cs.len()
        invariant
            i <= cs.len(),
            out@ == posix_seps(cs@.take(i as int)),
        decreases cs.len() - i,
    {
        let c = cs[i];
        out.push(if c == '\\' {
            '/'
        } else {
            c
        });
        i += 1;
        assert(posix_seps(cs@.take(i as int)) =~= posix_seps(cs@.take(i - 1)).push(
            if cs@[i - 1] == '\\' {
                '/'
            } else {
                cs@[i - 1]
            },
        ));
    }
    assert(cs@.take(cs.len() as int) =~= cs@);
    string_from_chars(&out)
}

// ---------------------------------------------------------------------------
// Resolving names to ids
// ---------------------------------------------------------------------------
/// Symbol names and the ids of the symbols bearing each name.
#[derive(Debug)]
pub struct NameIndex {
    pub entries: Vec<(String, Vec<String>)>,
}

impl NameIndex {
    pub open spec fn entries_view(self) -> Seq<(Seq<char>, Seq<Seq<char>>)> {
        self.entries@.map_values(|e: (String, Vec<String>)| (e.0@, strings_view(e.1@)))
    }

    /// The ids listed under a name: those of its first entry.
    pub open spec fn lookup(self, name: Seq<char>) -> Option<Seq<Seq<char>>> {
        lookup_in(self.entries_view(), name)
    }

    /// The ids listed under a name.
    pub fn get(&self, name: &str) -> (r: Option<&Vec<String>>)
        ensures
            match r {
                Some(ids) => self.lookup(name@) == Some(strings_view(ids@)),
                None => self.lookup(name@) is None,
            },
    {
        let mut i: usize = 0;
        assert(self.entries_view().skip(0) =~= self.entries_view());
        while i < self.entries.len()
            invariant
                i <= self.entries.len(),
                lookup_in(self.entries_view(), name@) == lookup_in(
                    self.entries_view().skip(i as int),
                    name@,
                ),
            decreases self.entries.len() - i,
        {
            assert(self.entries_view().skip(i as int)[0] == (
                self.entries@[i as int].0@,
                strings_view(self.entries@[i as int].1@),
            ));
            if str_eq(self.entries[i].0.as_str(), name) {
                return Some(&self.entries[i].1);
            }
            assert(self.entries_view().skip(i as int).drop_first() =~= self.entries_view().skip(
                i + 1,
            ));
            i += 1;
        }
        assert(self.entries_view().skip(i as int).len() == 0);
        None
    }
}

pub open spec fn lookup_in(entries: Seq<(Seq<char>, Seq<Seq<char>>)>, name: Seq<char>) -> Option<
    Seq<Seq<char>>,
>
    decreases entries.len(),
{
    if entries.len() == 0 {
        None
    } else if entries[0].0 == name {
        Some(entries[0].1)
    } else {
        lookup_in(entries.drop_first(), name)
    }
}

proof fn lemma_lookup_update(
    e: Seq<(Seq<char>, Seq<Seq<char>>)>,
    k: int,
    v: Seq<Seq<char>>,
    n: Seq<char>,
)
    requires
        0 <= k < e.len(),
        forall|j: int| 0 <= j < k ==> (#[trigger] e[j]).0 != e[k].0,
    ensures
        lookup_in(e.update(k, (e[k].0, v)), n) == (if n == e[k].0 {
            Some(v)
        } else {
            lookup_in(e, n)
        }),
        lookup_in(e, e[k].0) == Some(e[k].1),
    decreases k,
{
    let u = e.update(k, (e[k].0, v));
    if k > 0 {
        assert(u.drop_first() =~= e.drop_first().update(k - 1, (e[k].0, v)));
        assert(e.drop_first()[k - 1] == e[k]);
        assert forall|j: int| 0 <= j < k - 1 implies (#[trigger] e.drop_first()[j]).0 != e.drop_first()[k
            - 1].0 by {
            assert(e.drop_first()[j] == e[j + 1]);
        }
        lemma_lookup_update(e.drop_first(), k - 1, v, n);
        lemma_lookup_update(e.drop_first(), k - 1, v, e[k].0);
    } else {
        assert(u.drop_first() =~= e.drop_first());
    }
}

proof fn lemma_lookup_push(
    e: Seq<(Seq<char>, Seq<Seq<char>>)>,
    name: Seq<char>,
    v: Seq<Seq<char>>,
    n: Seq<char>,
)
    requires
        forall|j: int| 0 <= j < e.len() ==> (#[trigger] e[j]).0 != name,
    ensures
        lookup_in(e.push((name, v)), n) == (if n == name {
            Some(v)
        } else {
            lookup_in(e, n)
        }),
        lookup_in(e, name) is None,
    decreases e.len(),
{
    if e.len() > 0 {
        assert(e.push((name, v)).drop_first() =~= e.drop_first().push((name, v)));
        assert forall|j: int| 0 <= j < e.drop_first().len() implies (
        #[trigger] e.drop_first()[j]).0 != name by {
            assert(e.drop_first()[j] == e[j + 1]);
        }
        lemma_lookup_push(e.drop_first(), name, v, n);
        lemma_lookup_push(e.drop_first(), name, v, name);
        assert(e.push((name, v))[0] == e[0]);
    } else {
        assert(e.push((name, v)).drop_first() =~= e);
        assert(e.push((name, v))[0] == (name, v));
    }
}

impl NameIndex {
    /// An index with no names.
    pub fn new() -> (r: NameIndex)
        ensures
            r.entries_view() == Seq::<(Seq<char>, Seq<Seq<char>>)>::empty(),
    {
        let r = NameIndex { entries: Vec::new() };
        assert(r.entries_view() =~= Seq::<(Seq<char>, Seq<Seq<char>>)>::empty());
        r
    }

    /// Lists `id` under `name`, after the ids already there.
    pub fn add(&mut self, name: &str, id: &str)
        ensures
            forall|n: Seq<char>|
                #[trigger] final(self).lookup(n) == if n == name@ {
                    Some(ids_under(old(self).entries_view(), n).push(id@))
                } else {
                    old(self).lookup(n)
                },
    {
        let ghost e = self.entries_view();
        let mut k: usize = 0;
        while k < self.entries.len() && !str_eq(self.entries[k].0.as_str(), name)
            invariant
                k <= self.entries.len(),
                e == self.entries_view(),
                forall|j: int| 0 <= j < k ==> (#[trigger] e[j]).0 != name@,
            decreases self.entries.len() - k,
        {
            k += 1;
        }
        if k < self.entries.len() {
            assert(e[k as int].0 == name@);
            proof {
                lemma_lookup_update(e, k as int, e[k as int].1.push(id@), name@);
            }
            let ghost before = self.entries@;
            let mut entry = self.entries.remove(k);
            assert(entry == before[k as int]);
            entry.1.push(to_owned_string(id));
            assert(strings_view(entry.1@) =~= e[k as int].1.push(id@));
            let ghost entry_v = entry;
            self.entries.insert(k, entry);
            assert(self.entries@ =~= before.update(k as int, entry_v));
            assert(self.entries_view() =~= e.update(k as int, (name@, e[k as int].1.push(id@))));
            assert forall|n: Seq<char>| #[trigger] self.lookup(n) == if n == name@ {
                Some(ids_under(e, n).push(id@))
            } else {
                lookup_in(e, n)
            } by {
                lemma_lookup_update(e, k as int, e[k as int].1.push(id@), n);
            }
        } else {
            proof {
                lemma_lookup_push(e, name@, seq![id@], name@);
            }
            let mut ids: Vec<String> = Vec::new();
            ids.push(to_owned_string(id));
            assert(strings_view(ids@) =~= seq![id@]);
            self.entries.push((to_owned_string(name), ids));
            assert(self.entries_view() =~= e.push((name@, seq![id@])));
            assert forall|n: Seq<char>| #[trigger] self.lookup(n) == if n == name@ {
                Some(ids_under(e, n).push(id@))
            } else {
                lookup_in(e, n)
            } by {
                lemma_lookup_push(e, name@, seq![id@], n);
                assert(Seq::<Seq<char>>::empty().push(id@) =~= seq![id@]);
            }
        }
    }
}

// ---------------------------------------------------------------------------
// Ids of a code index run
// ---------------------------------------------------------------------------
/// The ids under a name, in the order the pairs list them.
pub open spec fn ids_named(pairs: Seq<(Seq<char>, Seq<char>)>, n: Seq<char>) -> Seq<Seq<char>>
    decreases pairs.len(),
{
    if pairs.len() == 0 {
        Seq::empty()
    } else {
        let r = ids_named(pairs.drop_last(), n);
        if pairs.last().0 == n {
            r.push(pairs.last().1)
        } else {
            r
        }
    }
}

/// An index lists under each name exactly the ids paired with it, in order.
pub open spec fn indexes(
    entries: Seq<(Seq<char>, Seq<Seq<char>>)>,
    pairs: Seq<(Seq<char>, Seq<char>)>,
) -> bool {
    forall|n: Seq<char>|
        #[trigger] lookup_in(entries, n) == if ids_named(pairs, n).len() == 0 {
            None::<Seq<Seq<char>>>
        } else {
            Some(ids_named(pairs, n))
        }
}

/// `k` is where `rel` first occurs among `paths`, or the length of `paths`
/// when it does not occur.
pub open spec fn first_path_at(paths: Seq<String>, rel: Seq<char>, k: int) -> bool {
    &&& 0 <= k <= paths.len()
    &&& forall|j: int| 0 <= j < k ==> (#[trigger] paths[j])@ != rel
    &&& k < paths.len() ==> paths[k]@ == rel
}

/// Adds the symbols of one source file to the symbols grouped by file
/// path: appended to the group of `rel` where there is one, else a new
/// group at the end.
pub fn add_file_symbols(
    paths: &mut Vec<String>,
    files: &mut Vec<Vec<CodeSymbol>>,
    rel: String,
    symbols: Vec<CodeSymbol>,
)
    requires
        old(paths)@.len() == old(files)@.len(),
    ensures
        final(paths)@.len() == final(files)@.len(),
        exists|k: int|
            #[trigger] first_path_at(old(paths)@, rel@, k) && (k < old(paths)@.len() ==> {
                &&& final(paths)@ == old(paths)@
                &&& final(files)@.len() == old(files)@.len()
                &&& final(files)@[k]@ == old(files)@[k]@ + symbols@
                &&& forall|j: int|
                    0 <= j < old(files)@.len() && j != k ==> final(files)@[j] == old(files)@[j]
            }) && (k == old(paths)@.len() ==> {
                &&& final(paths)@ == old(paths)@.push(rel)
                &&& final(files)@ == old(files)@.push(symbols)
            }),
{
    let mut i: usize = 0;
    while i < paths.len()
        invariant
            i <= paths.len(),
            paths@ == old(paths)@,
            files@ == old(files)@,
            paths@.len() == files@.len(),
            forall|j: int| 0 <= j < i ==> (#[trigger] paths@[j])@ != rel@,
        ensures
            i <= paths.len(),
            paths@ == old(paths)@,
            files@ == old(files)@,
            paths@.len() == files@.len(),
            forall|j: int| 0 <= j < i ==> (#[trigger] paths@[j])@ != rel@,
            i < paths.len() ==> paths@[i as int]@ == rel@,
        decreases paths.len() - i,
    {
        if str_eq(paths[i].as_str(), rel.as_str()) {
            break;
        }
        i += 1;
    }
    assert(first_path_at(old(paths)@, rel@, i as int));
    if i < paths.len() {
        let mut more = symbols;
        let ghost before = files@[i as int]@;
        files[i].append(&mut more);
        assert(files@[i as int]@ == before + symbols@);
    } else {
        paths.push(rel);
        files.push(symbols);
    }
}

/// Each symbol's name with its id.
pub open spec fn file_named_ids(syms: Seq<CodeSymbol>, ids: Seq<String>) -> Seq<
    (Seq<char>, Seq<char>),
> {
    Seq::new(syms.len(), |i: int| (syms[i].name@, ids[i]@))
}

/// Each symbol's name with its id, file after file.
pub open spec fn named_ids(files: Seq<Vec<CodeSymbol>>, ids: Seq<Vec<String>>) -> Seq<
    (Seq<char>, Seq<char>),
>
    decreases files.len(),
{
    if files.len() == 0 {
        Seq::empty()
    } else {
        named_ids(files.drop_last(), ids.drop_last()) + file_named_ids(
            files.last()@,
            ids.last()@,
        )
    }
}

/// The name index of a run: every symbol's name with the id drawn for it.
pub fn name_index(files: &Vec<Vec<CodeSymbol>>, ids: &Vec<Vec<String>>) -> (r: NameIndex)
    requires
        ids.len() == files.len(),
        forall|f: int| 0 <= f < files.len() ==> (#[trigger] ids@[f]).len() == files@[f].len(),
    ensures
        indexes(r.entries_view(), named_ids(files@, ids@)),
{
    let mut index = NameIndex::new();
    let mut f: usize = 0;
    assert(files@.take(0) =~= Seq::<Vec<CodeSymbol>>::empty());
    while f < files.len()
        invariant
            f <= files.len(),
            ids.len() == files.len(),
            forall|g: int| 0 <= g < files.len() ==> (#[trigger] ids@[g]).len() == files@[g].len(),
            indexes(index.entries_view(), named_ids(files@.take(f as int), ids@.take(f as int))),
        decreases files.len() - f,
    {
        let ghost base = named_ids(files@.take(f as int), ids@.take(f as int));
        let syms = &files[f];
        let fids = &ids[f];
        let mut i: usize = 0;
        assert(file_named_ids(syms@.take(0), fids@.take(0)) =~= Seq::empty());
        assert(base + Seq::<(Seq<char>, Seq<char>)>::empty() =~= base);
        while i < syms.len()
            invariant
                i <= syms.len(),
                fids.len() == syms.len(),
                indexes(
                    index.entries_view(),
                    base + file_named_ids(syms@.take(i as int), fids@.take(i as int)),
                ),
            decreases syms.len() - i,
        {
            let ghost pairs = base + file_named_ids(syms@.take(i as int), fids@.take(i as int));
            let ghost old_entries = index.entries_view();
            index.add(syms[i].name.as_str(), fids[i].as_str());
            let ghost name = syms@[i as int].name@;
            let ghost id = fids@[i as int]@;
            assert(base + file_named_ids(syms@.take(i + 1), fids@.take(i + 1)) =~= pairs.push(
                (name, id),
            ));
            assert forall|n: Seq<char>| #[trigger] lookup_in(index.entries_view(), n) == (if ids_named(
                pairs.push((name, id)),
                n,
            ).len() == 0 {
                None::<Seq<Seq<char>>>
            } else {
                Some(ids_named(pairs.push((name, id)), n))
            }) by {
                assert(pairs.push((name, id)).drop_last() =~= pairs);
                assert(lookup_in(old_entries, n) == (if ids_named(pairs, n).len() == 0 {
                    None::<Seq<Seq<char>>>
                } else {
                    Some(ids_named(pairs, n))
                }));
                assert(index.lookup(n) == lookup_in(index.entries_view(), n));
            }
            i += 1;
        }
        assert(syms@.take(syms.len() as int) =~= syms@);
        assert(fids@.take(fids.len() as int) =~= fids@);
        assert(files@.take(f + 1).drop_last() =~= files@.take(f as int));
        assert(ids@.take(f + 1).drop_last() =~= ids@.take(f as int));
        f += 1;
    }
    assert(files@.take(files.len() as int) =~= files@);
    assert(ids@.take(ids.len() as int) =~= ids@);
    index
}

/// A fresh id for every symbol of a file.
pub fn fresh_ids(syms: &Vec<CodeSymbol>) -> (r: Vec<String>)
    ensures
        r.len() == syms.len(),
        forall|i: int| 0 <= i < r.len() ==> is_ulid_text(#[trigger] r@[i]@),
{
    let mut r: Vec<String> = Vec::new();
    let mut i: usize = 0;
    while i < syms.len()
        invariant
            i <= syms.len(),
            r.len() == i,
            forall|j: int| 0 <= j < r.len() ==> is_ulid_text(#[trigger] r@[j]@),
        decreases syms.len() - i,
    {
        r.push(new_id());
        i += 1;
    }
    r
}

/// The position of the last of the first `n` symbols with that name and
/// first line (-1 if none).
pub open spec fn last_with_key(syms: Seq<CodeSymbol>, name: Seq<char>, line: usize, n: int) -> int
    decreases n,
{
    if n <= 0 {
        -1
    } else if syms[n - 1].name@ == name && syms[n - 1].start_line == line {
        n - 1
    } else {
        last_with_key(syms, name, line, n - 1)
    }
}

/// The symbol whose id a symbol's item carries: the last one of the file
/// with the same name and first line (ids are keyed by file, name and
/// line).
pub open spec fn key_owner(syms: Seq<CodeSymbol>, i: int) -> int {
    last_with_key(syms, syms[i].name@, syms[i].start_line, syms.len() as int)
}

/// The id each symbol's item carries, from the ids drawn for the symbols
/// of the file.
pub fn symbol_ids(syms: &Vec<CodeSymbol>, fresh: &Vec<String>) -> (r: Vec<String>)
    requires
        fresh.len() == syms.len(),
    ensures
        r.len() == syms.len(),
        forall|i: int| 0 <= i < r.len() ==> i <= #[trigger] key_owner(syms@, i) < syms.len(),
        forall|i: int| 0 <= i < r.len() ==> #[trigger] r@[i]@ == fresh@[key_owner(syms@, i)]@,
{
    let mut r: Vec<String> = Vec::new();
    let mut i: usize = 0;
    while i < syms.len()
        invariant
            i <= syms.len(),
            fresh.len() == syms.len(),
            r.len() == i,
            forall|j: int| 0 <= j < i ==> j <= #[trigger] key_owner(syms@, j) < syms.len(),
            forall|j: int| 0 <= j < i ==> #[trigger] r@[j]@ == fresh@[key_owner(syms@, j)]@,
        decreases syms.len() - i,
    {
        let mut k: usize = syms.len();
        while k > 0 && !(str_eq(syms[k - 1].name.as_str(), syms[i].name.as_str())
            && syms[k - 1].start_line == syms[i].start_line)
            invariant
                i < k <= syms.len(),
                fresh.len() == syms.len(),
                r.len() == i,
                forall|j: int| 0 <= j < i ==> j <= #[trigger] key_owner(syms@, j) < syms.len(),
                forall|j: int| 0 <= j < i ==> #[trigger] r@[j]@ == fresh@[key_owner(syms@, j)]@,
                key_owner(syms@, i as int) == last_with_key(
                    syms@,
                    syms@[i as int].name@,
                    syms@[i as int].start_line,
                    k as int,
                ),
            decreases k,
        {
            k -= 1;
        }
        assert(last_with_key(
            syms@,
            syms@[i as int].name@,
            syms@[i as int].start_line,
            k as int,
        ) == k - 1);
        assert(i <= key_owner(syms@, i as int) < syms.len());
        r.push(to_owned_string(fresh[k - 1].as_str()));
        assert(r@[i as int]@ == fresh@[key_owner(syms@, i as int)]@);
        i += 1;
    }
    r
}

/// The relations after adding `kind` edges to `targets`, skipping the
/// target `skip` and any edge already present.
pub open spec fn add_targets(
    rels: Seq<(Seq<char>, Seq<char>)>,
    kind: Seq<char>,
    targets: Seq<Seq<char>>,
    skip: Option<Seq<char>>,
) -> Seq<(Seq<char>, Seq<char>)>
    decreases targets.len(),
{
    if targets.len() == 0 {
        rels
    } else {
        let r = add_targets(rels, kind, targets.drop_last(), skip);
        let t = targets.last();
        if skip == Some(t) || r.contains((kind, t)) {
            r
        } else {
            r.push((kind, t))
        }
    }
}

pub open spec fn ids_under(index: Seq<(Seq<char>, Seq<Seq<char>>)>, name: Seq<char>) -> Seq<
    Seq<char>,
> {
    match lookup_in(index, name) {
        Some(ids) => ids,
        None => Seq::empty(),
    }
}

/// `calls` edges from an item to every symbol named by one of its calls,
/// except itself.
pub open spec fn call_relations(
    index: Seq<(Seq<char>, Seq<Seq<char>>)>,
    calls: Seq<Seq<char>>,
    id: Seq<char>,
) -> Seq<(Seq<char>, Seq<char>)>
    decreases calls.len(),
{
    if calls.len() == 0 {
        Seq::empty()
    } else {
        add_targets(
            call_relations(index, calls.drop_last(), id),
            "calls"@,
            ids_under(index, calls.last()),
            Some(id),
        )
    }
}

/// The last `::` of a text, by position of its first colon.
pub open spec fn last_double_colon(s: Seq<char>) -> Option<nat>
    decreases s.len(),
{
    if s.len() < 2 {
        None
    } else if s[s.len() - 2] == ':' && s[s.len() - 1] == ':' {
        Some((s.len() - 2) as nat)
    } else {
        last_double_colon(s.drop_last())
    }
}

/// The last segment of an import path (`rsplit_once("::")`), or the whole
/// path.
pub open spec fn import_leaf(s: Seq<char>) -> Seq<char> {
    match last_double_colon(s) {
        Some(k) => s.skip(k as int + 2),
        None => s,
    }
}

/// `uses` edges to every symbol named by the leaf of an import.
pub open spec fn use_relations(
    start: Seq<(Seq<char>, Seq<char>)>,
    index: Seq<(Seq<char>, Seq<Seq<char>>)>,
    imports: Seq<Seq<char>>,
) -> Seq<(Seq<char>, Seq<char>)>
    decreases imports.len(),
{
    if imports.len() == 0 {
        start
    } else {
        add_targets(
            use_relations(start, index, imports.drop_last()),
            "uses"@,
            ids_under(index, import_leaf(imports.last())),
            None,
        )
    }
}

pub open spec fn rel_pairs(rels: Seq<Relation>) -> Seq<(Seq<char>, Seq<char>)> {
    rels.map_values(|r: Relation| (r.rel@, r.target@))
}

fn contains_relation(rels: &Vec<Relation>, kind: &str, target: &str) -> (r: bool)
    ensures
        r == rel_pairs(rels@).contains((kind@, target@)),
{
    let mut i: usize = 0;
    while i < rels.len()
        invariant
            i <= rels.len(),
            forall|j: int| 0 <= j < i ==> rel_pairs(rels@)[j] != (kind@, target@),
        decreases rels.len() - i,
    {
        if str_eq(rels[i].rel.as_str(), kind) && str_eq(rels[i].target.as_str(), target) {
            assert(rel_pairs(rels@)[i as int] == (kind@, target@));
            return true;
        }
        i += 1;
    }
    false
}

fn push_targets(
    rels: &mut Vec<Relation>,
    kind: &str,
    targets: &Vec<String>,
    skip: Option<&str>,
)
    ensures
        rel_pairs(final(rels)@) == add_targets(
            rel_pairs(old(rels)@),
            kind@,
            strings_view(targets@),
            match skip {
                Some(s) => Some(s@),
                None => None,
            },
        ),
{
    let ghost start = rel_pairs(rels@);
    let ghost gskip = match skip {
        Some(s) => Some(s@),
        None => None::<Seq<char>>,
    };
    let mut i: usize = 0;
    while i < targets.len()
        invariant
            i <= targets.len(),
            rel_pairs(rels@) == add_targets(start, kind@, strings_view(targets@.take(i as int)), gskip),
            gskip == (match skip {
                Some(s) => Some(s@),
                None => None::<Seq<char>>,
            }),
        decreases targets.len() - i,
    {
        let t = &targets[i];
        assert(strings_view(targets@.take(i + 1)).drop_last() =~= strings_view(targets@.take(i as int)));
        assert(strings_view(targets@.take(i + 1)).last() == t@);
        let is_self = match skip {
            Some(s) => str_eq(t.as_str(), s),
            None => false,
        };
        if !is_self && !contains_relation(rels, kind, t.as_str()) {
            let ghost before = rel_pairs(rels@);
            rels.push(Relation { rel: to_owned_string(kind), target: t.clone() });
            assert(rel_pairs(rels@) =~= before.push((kind@, t@)));
        }
        i += 1;
    }
    assert(targets@.take(targets.len() as int) =~= targets@);
}

fn find_last_double_colon(s: &Vec<char>) -> (r: Option<usize>)
    ensures
        match r {
            Some(k) => last_double_colon(s@) == Some(k as nat),
            None => last_double_colon(s@) is None,
        },
{
    let mut n = s.len();
    assert(s@.take(s.len() as int) =~= s@);
    while n >= 2
        invariant
            n <= s.len(),
            last_double_colon(s@) == last_double_colon(s@.take(n as int)),
        decreases n,
    {
        assert(s@.take(n as int)[n - 2] == s@[n - 2]);
        assert(s@.take(n as int)[n - 1] == s@[n - 1]);
        if s[n - 2] == ':' && s[n - 1] == ':' {
            return Some(n - 2);
        }
        assert(s@.take(n as int).drop_last() =~= s@.take(n - 1));
        n -= 1;
    }
    None
}

proof fn lemma_last_double_colon_bound(s: Seq<char>)
    ensures
        last_double_colon(s) matches Some(k) ==> k + 2 <= s.len(),
    decreases s.len(),
{
    if s.len() >= 2 {
        lemma_last_double_colon_bound(s.drop_last());
    }
}

fn leaf_of(imp: &str) -> (r: String)
    ensures
        r@ == import_leaf(imp@),
{
    let cs = char_vec(imp);
    proof {
        lemma_last_double_colon_bound(cs@);
    }
    match find_last_double_colon(&cs) {
        Some(k) => {
            assert(k + 2 <= cs.len());
            let tail = slice_chars(&cs, k + 2, cs.len());
            assert(tail@ =~= cs@.skip(k + 2));
            string_from_chars(&tail)
        },
        None => to_owned_string(imp),
    }
}

/// The relations of a symbol's item: `calls` edges first, then `uses`
/// edges, each edge once.
pub open spec fn symbol_relations(
    index: Seq<(Seq<char>, Seq<Seq<char>>)>,
    sym_calls: Seq<Seq<char>>,
    sym_imports: Seq<Seq<char>>,
    id: Seq<char>,
) -> Seq<(Seq<char>, Seq<char>)> {
    use_relations(call_relations(index, sym_calls, id), index, sym_imports)
}

/// `t` is an id the index lists under one of `names`.
pub open spec fn listed_under(
    index: Seq<(Seq<char>, Seq<Seq<char>>)>,
    names: Seq<Seq<char>>,
    t: Seq<char>,
) -> bool {
    exists|k: int| 0 <= k < names.len() && #[trigger] ids_under(index, names[k]).contains(t)
}

/// `t` is an id the index lists under the last segment of one of `imports`.
pub open spec fn listed_under_leaf(
    index: Seq<(Seq<char>, Seq<Seq<char>>)>,
    imports: Seq<Seq<char>>,
    t: Seq<char>,
) -> bool {
    exists|k: int| 0 <= k < imports.len() && #[trigger] ids_under(index, import_leaf(imports[k])).contains(t)
}

proof fn lemma_add_targets(
    rels: Seq<(Seq<char>, Seq<char>)>,
    kind: Seq<char>,
    targets: Seq<Seq<char>>,
    skip: Option<Seq<char>>,
)
    ensures
        forall|x: (Seq<char>, Seq<char>)|
            #[trigger] add_targets(rels, kind, targets, skip).contains(x) <==> (rels.contains(x) || (
            x.0 == kind && targets.contains(x.1) && skip != Some(x.1))),
        rels.no_duplicates() ==> add_targets(rels, kind, targets, skip).no_duplicates(),
    decreases targets.len(),
{
    if targets.len() > 0 {
        let t0 = targets.drop_last();
        lemma_add_targets(rels, kind, t0, skip);
        let r = add_targets(rels, kind, t0, skip);
        let t = targets.last();
        assert forall|x: (Seq<char>, Seq<char>)|
            #[trigger] add_targets(rels, kind, targets, skip).contains(x) <==> (rels.contains(x) || (
            x.0 == kind && targets.contains(x.1) && skip != Some(x.1))) by {
            if targets.contains(x.1) && !t0.contains(x.1) {
                let i = choose|i: int| 0 <= i < targets.len() && targets[i] == x.1;
                if i < t0.len() {
                    assert(t0[i] == targets[i]);
                }
            }
            if t0.contains(x.1) {
                let i = choose|i: int| 0 <= i < t0.len() && t0[i] == x.1;
                assert(targets[i] == t0[i]);
            }
            assert(targets[targets.len() - 1] == t);
            if !(skip == Some(t) || r.contains((kind, t))) {
                let r2 = r.push((kind, t));
                if r2.contains(x) && !r.contains(x) {
                    let i = choose|i: int| 0 <= i < r2.len() && r2[i] == x;
                    if i < r.len() {
                        assert(r2[i] == r[i]);
                    }
                }
                if r.contains(x) {
                    let i = choose|i: int| 0 <= i < r.len() && r[i] == x;
                    assert(r2[i] == r[i]);
                }
                if x == (kind, t) {
                    assert(r2[r.len() as int] == x);
                }
            }
        }
        if rels.no_duplicates() && !(skip == Some(t) || r.contains((kind, t))) {
            let r2 = r.push((kind, t));
            assert forall|i: int, j: int| 0 <= i < r2.len() && 0 <= j < r2.len() && i != j implies r2[i]
                != r2[j] by {
                if i == r.len() {
                    assert(r.contains(r[j]));
                } else if j == r.len() {
                    assert(r.contains(r[i]));
                }
            }
        }
    }
}

proof fn lemma_call_relations(
    index: Seq<(Seq<char>, Seq<Seq<char>>)>,
    calls: Seq<Seq<char>>,
    id: Seq<char>,
)
    ensures
        forall|x: (Seq<char>, Seq<char>)|
            #[trigger] call_relations(index, calls, id).contains(x) <==> (x.0 == "calls"@ && x.1 != id
                && listed_under(index, calls, x.1)),
        call_relations(index, calls, id).no_duplicates(),
    decreases calls.len(),
{
    if calls.len() > 0 {
        let c0 = calls.drop_last();
        lemma_call_relations(index, c0, id);
        let prev = call_relations(index, c0, id);
        lemma_add_targets(prev, "calls"@, ids_under(index, calls.last()), Some(id));
        assert forall|x: (Seq<char>, Seq<char>)|
            #[trigger] call_relations(index, calls, id).contains(x) <==> (x.0 == "calls"@ && x.1 != id
                && listed_under(index, calls, x.1)) by {
            if listed_under(index, calls, x.1) {
                let k = choose|k: int| 0 <= k < calls.len() && #[trigger] ids_under(index, calls[k]).contains(x.1);
                if k < c0.len() {
                    assert(c0[k] == calls[k]);
                    assert(listed_under(index, c0, x.1));
                } else {
                    assert(calls[k] == calls.last());
                }
            }
            if listed_under(index, c0, x.1) {
                let k = choose|k: int| 0 <= k < c0.len() && #[trigger] ids_under(index, c0[k]).contains(x.1);
                assert(calls[k] == c0[k]);
                assert(listed_under(index, calls, x.1));
            }
            if ids_under(index, calls.last()).contains(x.1) {
                assert(calls[calls.len() - 1] == calls.last());
                assert(listed_under(index, calls, x.1));
            }
        }
    } else {
        assert forall|x: (Seq<char>, Seq<char>)|
            #[trigger] call_relations(index, calls, id).contains(x) <==> (x.0 == "calls"@ && x.1 != id
                && listed_under(index, calls, x.1)) by {
            assert(!call_relations(index, calls, id).contains(x));
        }
    }
}

proof fn lemma_use_relations(
    start: Seq<(Seq<char>, Seq<char>)>,
    index: Seq<(Seq<char>, Seq<Seq<char>>)>,
    imports: Seq<Seq<char>>,
)
    ensures
        forall|x: (Seq<char>, Seq<char>)|
            #[trigger] use_relations(start, index, imports).contains(x) <==> (start.contains(x) || (
            x.0 == "uses"@ && listed_under_leaf(index, imports, x.1))),
        start.no_duplicates() ==> use_relations(start, index, imports).no_duplicates(),
    decreases imports.len(),
{
    if imports.len() > 0 {
        let m0 = imports.drop_last();
        lemma_use_relations(start, index, m0);
        let prev = use_relations(start, index, m0);
        lemma_add_targets(prev, "uses"@, ids_under(index, import_leaf(imports.last())), None);
        assert forall|x: (Seq<char>, Seq<char>)|
            #[trigger] use_relations(start, index, imports).contains(x) <==> (start.contains(x) || (
            x.0 == "uses"@ && listed_under_leaf(index, imports, x.1))) by {
            if listed_under_leaf(index, imports, x.1) {
                let k = choose|k: int|
                    0 <= k < imports.len() && #[trigger] ids_under(index, import_leaf(imports[k])).contains(x.1);
                if k < m0.len() {
                    assert(m0[k] == imports[k]);
                    assert(listed_under_leaf(index, m0, x.1));
                } else {
                    assert(imports[k] == imports.last());
                }
            }
            if listed_under_leaf(index, m0, x.1) {
                let k = choose|k: int|
                    0 <= k < m0.len() && #[trigger] ids_under(index, import_leaf(m0[k])).contains(x.1);
                assert(imports[k] == m0[k]);
                assert(listed_under_leaf(index, imports, x.1));
            }
            if ids_under(index, import_leaf(imports.last())).contains(x.1) {
                assert(imports[imports.len() - 1] == imports.last());
                assert(listed_under_leaf(index, imports, x.1));
            }
        }
    } else {
        assert forall|x: (Seq<char>, Seq<char>)|
            #[trigger] use_relations(start, index, imports).contains(x) <==> (start.contains(x) || (
            x.0 == "uses"@ && listed_under_leaf(index, imports, x.1))) by {}
    }
}

/// The relations of a symbol's item: a `calls` edge to every id the index
/// lists under a name the symbol calls, except the item's own id; a `uses`
/// edge to every id listed under the last segment of one of its imports;
/// nothing else, and no edge twice.
pub proof fn lemma_symbol_relations(
    index: Seq<(Seq<char>, Seq<Seq<char>>)>,
    calls: Seq<Seq<char>>,
    imports: Seq<Seq<char>>,
    id: Seq<char>,
)
    ensures
        symbol_relations(index, calls, imports, id).no_duplicates(),
        forall|x: (Seq<char>, Seq<char>)|
            #[trigger] symbol_relations(index, calls, imports, id).contains(x) <==> ((x.0 == "calls"@
                && x.1 != id && listed_under(index, calls, x.1)) || (x.0 == "uses"@
                && listed_under_leaf(index, imports, x.1))),
{
    lemma_call_relations(index, calls, id);
    lemma_use_relations(call_relations(index, calls, id), index, imports);
}

fn build_relations(id: &str, sym: &CodeSymbol, index: &NameIndex) -> (r: Vec<Relation>)
    ensures
        rel_pairs(r@) == symbol_relations(
            index.entries_view(),
            strings_view(sym.calls@),
            strings_view(sym.imports@),
            id@,
        ),
{
    let mut rels: Vec<Relation> = Vec::new();
    let mut i: usize = 0;
    assert(rel_pairs(rels@) =~= Seq::<(Seq<char>, Seq<char>)>::empty());
    while i < sym.calls.len()
        invariant
            i <= sym.calls.len(),
            rel_pairs(rels@) == call_relations(
                index.entries_view(),
                strings_view(sym.calls@.take(i as int)),
                id@,
            ),
        decreases sym.calls.len() - i,
    {
        let callee = &sym.calls[i];
        assert(strings_view(sym.calls@.take(i + 1)).drop_last() =~= strings_view(
            sym.calls@.take(i as int),
        ));
        assert(strings_view(sym.calls@.take(i + 1)).last() == callee@);
        match index.get(callee.as_str()) {
            Some(targets) => {
                push_targets(&mut rels, "calls", targets, Some(id));
            },
            None => {},
        }
        i += 1;
    }
    assert(sym.calls@.take(sym.calls.len() as int) =~= sym.calls@);
    let ghost after_calls = rel_pairs(rels@);
    let mut j: usize = 0;
    while j < sym.imports.len()
        invariant
            j <= sym.imports.len(),
            rel_pairs(rels@) == use_relations(
                after_calls,
                index.entries_view(),
                strings_view(sym.imports@.take(j as int)),
            ),
        decreases sym.imports.len() - j,
    {
        let imp = &sym.imports[j];
        assert(strings_view(sym.imports@.take(j + 1)).drop_last() =~= strings_view(
            sym.imports@.take(j as int),
        ));
        assert(strings_view(sym.imports@.take(j + 1)).last() == imp@);
        let leaf = leaf_of(imp.as_str());
        match index.get(leaf.as_str()) {
            Some(targets) => {
                push_targets(&mut rels, "uses", targets, None);
            },
            None => {},
        }
        j += 1;
    }
    assert(sym.imports@.take(sym.imports.len() as int) =~= sym.imports@);
    rels
}

// ---------------------------------------------------------------------------
// Symbol -> item
// ---------------------------------------------------------------------------
/// The title of a symbol's item: its qualified name.
pub open spec fn symbol_title(sym: CodeSymbol) -> Seq<char> {
    if sym.qualified_name@ == sym.name@ {
        sym.name@
    } else {
        sym.qualified_name@
    }
}

/// Title, file path and source, one per line: the text that is searched
/// and embedded.
pub open spec fn symbol_body_text(sym: CodeSymbol) -> Seq<char> {
    symbol_title(sym) + seq!['\n'] + sym.file_path@ + seq!['\n'] + sym.body@
}

/// A heading with the location, and the source in `<pre><code>`.
pub open spec fn symbol_body_html(sym: CodeSymbol) -> Seq<char> {
    "  <h3>"@ + escape(symbol_title(sym)) + " <small>"@ + escape(sym.file_path@) + seq![':']
        + decimal(sym.start_line as nat) + seq!['-'] + decimal(sym.end_line as nat)
        + "</small></h3>\n  <pre><code class=\"language-"@ + sym.language@ + "\">"@ + escape(
        sym.body@,
    ) + "</code></pre>\n"@
}

/// The item a symbol becomes: a project-scoped, long-term, imported item
/// with full confidence, tagged `code`, its language, its kind and the
/// project, claimed by `path#qualified_name`.
pub open spec fn is_symbol_item(
    id: Seq<char>,
    project: Seq<char>,
    sym: CodeSymbol,
    index: Seq<(Seq<char>, Seq<Seq<char>>)>,
    now: Timestamp,
    item: KnowledgeRecord,
) -> bool {
    &&& item.id@ == id
    &&& item.knowledge_type == KnowledgeType::from_name(sym.kind.knowledge_type_name())
    &&& item.scope == Scope::Project
    &&& item.confidence@ == "1.000"@
    &&& item.source_type == SourceType::CodeImport
    &&& item.status == Status::Active
    &&& item.stability == Stability::LongTerm
    &&& item.created == now
    &&& item.modified == now
    &&& item.valid_from is None
    &&& item.valid_until is None
    &&& item.domain matches Some(d) && d@ == "code/"@ + sym.language@
    &&& strings_view(item.tags@) == seq!["code"@, sym.language@, sym.kind.name(), project]
    &&& item.title@ == symbol_title(sym)
    &&& item.body_text@ == symbol_body_text(sym)
    &&& item.body_html@ == symbol_body_html(sym)
    &&& rel_pairs(item.relations@) == symbol_relations(
        index,
        strings_view(sym.calls@),
        strings_view(sym.imports@),
        id,
    )
    &&& item.claim_key matches Some(k) && k@ == sym.file_path@ + seq!['#'] + sym.qualified_name@
    &&& item.defined_path matches Some(p) && p@ == sym.file_path@
    &&& item.defined_start_line == Some(sym.start_line)
    &&& item.defined_end_line == Some(sym.end_line)
}

/// What a code symbol's item is: a method for a function and a definition
/// for anything else; a project item taken from code, active, long-term,
/// with full confidence; titled by its qualified name; tagged `code`, its
/// language, its kind and the project; claimed by `path#qualified_name`;
/// and pointing at the lines it spans.
pub proof fn lemma_symbol_item_shape(
    id: Seq<char>,
    project: Seq<char>,
    sym: CodeSymbol,
    index: Seq<(Seq<char>, Seq<Seq<char>>)>,
    now: Timestamp,
    item: KnowledgeRecord,
)
    requires
        is_symbol_item(id, project, sym, index, now, item),
    ensures
        sym.kind == SymbolKind::Function ==> item.knowledge_type == KnowledgeType::Method,
        sym.kind != SymbolKind::Function ==> item.knowledge_type == KnowledgeType::Definition,
        item.scope == Scope::Project,
        item.source_type == SourceType::CodeImport,
        item.status == Status::Active,
        item.stability == Stability::LongTerm,
        item.title@ == sym.qualified_name@,
        item.tags@.len() == 4,
        item.tags@[0]@ == seq!['c', 'o', 'd', 'e'],
        item.tags@[1]@ == sym.language@,
        item.tags@[3]@ == project,
        item.claim_key matches Some(k) && k@ == sym.file_path@ + seq!['#'] + sym.qualified_name@,
        item.defined_start_line == Some(sym.start_line),
        item.defined_end_line == Some(sym.end_line),
{
    reveal_strlit("method");
    reveal_strlit("definition");
    reveal_strlit("code");
    crate::schema::lemma_knowledge_type_round_trip(KnowledgeType::Method);
    crate::schema::lemma_knowledge_type_round_trip(KnowledgeType::Definition);
    crate::text::lemma_normalized_plain("method"@);
    crate::text::lemma_normalized_plain("definition"@);
    assert(strings_view(item.tags@) == seq!["code"@, sym.language@, sym.kind.name(), project]);
    assert(strings_view(item.tags@).len() == 4);
    assert(item.tags@.len() == 4);
    assert(strings_view(item.tags@)[0] == item.tags@[0]@);
    assert(strings_view(item.tags@)[1] == item.tags@[1]@);
    assert(strings_view(item.tags@)[3] == item.tags@[3]@);
}

fn symbol_html(title: &str, sym: &CodeSymbol) -> (r: String)
    requires
        title@ == symbol_title(*sym),
    ensures
        r@ == symbol_body_html(*sym),
{
    let mut h = String::new();
    h.append("  <h3>");
    h.append(escape_html(title).as_str());
    h.append(" <small>");
    h.append(escape_html(sym.file_path.as_str()).as_str());
    h.push(':');
    h.append(usize_to_string(sym.start_line).as_str());
    h.push('-');
    h.append(usize_to_string(sym.end_line).as_str());
    h.append("</small></h3>\n  <pre><code class=\"language-");
    h.append(sym.language.as_str());
    h.append("\">");
    h.append(escape_html(sym.body.as_str()).as_str());
    h.append("</code></pre>\n");
    h
}

/// The knowledge item a symbol becomes.
pub fn symbol_to_item(
    id: &str,
    project: &str,
    sym: &CodeSymbol,
    index: &NameIndex,
    now: Timestamp,
) -> (item: KnowledgeRecord)
    ensures
        is_symbol_item(id@, project@, *sym, index.entries_view(), now, item),
{
    proof {
        reveal_strlit("method");
        reveal_strlit("definition");
        crate::text::lemma_normalized_plain("method"@);
        crate::text::lemma_normalized_plain("definition"@);
    }
    let title = if str_eq(sym.qualified_name.as_str(), sym.name.as_str()) {
        sym.name.clone()
    } else {
        sym.qualified_name.clone()
    };
    let mut body_text = title.clone();
    body_text.push('\n');
    body_text.append(sym.file_path.as_str());
    body_text.push('\n');
    body_text.append(sym.body.as_str());
    let body_html = symbol_html(title.as_str(), sym);
    let relations = build_relations(id, sym, index);
    let mut domain = to_owned_string("code/");
    domain.append(sym.language.as_str());
    let mut tags: Vec<String> = Vec::new();
    tags.push(to_owned_string("code"));
    tags.push(sym.language.clone());
    tags.push(to_owned_string(sym.kind.as_str()));
    tags.push(to_owned_string(project));
    assert(strings_view(tags@) =~= seq!["code"@, sym.language@, sym.kind.name(), project@]);
    let mut claim_key = sym.file_path.clone();
    claim_key.push('#');
    claim_key.append(sym.qualified_name.as_str());
    let knowledge_type = KnowledgeType::parse(sym.kind.knowledge_type());
    assert(knowledge_type == KnowledgeType::from_name(sym.kind.knowledge_type_name()));
    assert(body_text@ == symbol_body_text(*sym));
    assert(domain@ == "code/"@ + sym.language@);
    assert(claim_key@ == sym.file_path@ + seq!['#'] + sym.qualified_name@);
    KnowledgeRecord {
        id: to_owned_string(id),
        knowledge_type,
        scope: Scope::Project,
        confidence: to_owned_string("1.000"),
        source_type: SourceType::CodeImport,
        status: Status::Active,
        stability: Stability::LongTerm,
        created: now,
        modified: now,
        valid_from: None,
        valid_until: None,
        domain: Some(domain),
        tags,
        title,
        body_text,
        body_html,
        relations,
        claim_key: Some(claim_key),
        defined_path: Some(sym.file_path.clone()),
        defined_start_line: Some(sym.start_line),
        defined_end_line: Some(sym.end_line),
    }
}

/// The head of a code file's HTML document, titled `<project> / <path>`.
pub open spec fn code_file_head(project: Seq<char>, src_path: Seq<char>) -> Seq<char> {
    "<!doctype html>\n<html lang=\"en\">\n<head>\n  <meta charset=\"utf-8\">\n  <title>"@ + escape(
        project,
    ) + " / "@ + escape(src_path) + "</title>\n</head>\n<body>\n\n"@
}

/// The sections of the items, each followed by a blank line.
pub open spec fn sections_text(items: Seq<KnowledgeRecord>) -> Seq<char>
    decreases items.len(),
{
    if items.len() == 0 {
        Seq::empty()
    } else {
        sections_text(items.drop_last()) + section_html(items.last()) + seq!['\n']
    }
}

/// A code file's HTML document holding the given items.
pub open spec fn code_file_html(
    project: Seq<char>,
    src_path: Seq<char>,
    items: Seq<KnowledgeRecord>,
) -> Seq<char> {
    code_file_head(project, src_path) + sections_text(items) + "</body>\n</html>\n"@
}

/// `s` is the HTML document of a source file whose `i`-th symbol's item
/// carries the id `ids[i]`.
pub open spec fn is_code_file(
    project: Seq<char>,
    src_path: Seq<char>,
    symbols: Seq<CodeSymbol>,
    ids: Seq<Seq<char>>,
    index: Seq<(Seq<char>, Seq<Seq<char>>)>,
    now: Timestamp,
    s: Seq<char>,
) -> bool {
    exists|items: Seq<KnowledgeRecord>|
        {
            &&& items.len() == symbols.len()
            &&& forall|i: int|
                0 <= i < items.len() ==> is_symbol_item(
                    ids[i],
                    project,
                    symbols[i],
                    index,
                    now,
                    #[trigger] items[i],
                )
            &&& s == code_file_html(project, src_path, items)
        }
}

/// The HTML document of one source file: one section per symbol, the
/// `i`-th symbol's item carrying the id `ids[i]`.
pub fn emit_file_html(
    project: &str,
    src_path: &str,
    symbols: &Vec<CodeSymbol>,
    ids: &Vec<String>,
    index: &NameIndex,
    now: Timestamp,
) -> (s: String)
    requires
        ids.len() == symbols.len(),
    ensures
        is_code_file(
            project@,
            src_path@,
            symbols@,
            strings_view(ids@),
            index.entries_view(),
            now,
            s@,
        ),
{
    let mut s = String::new();
    s.append("<!doctype html>\n<html lang=\"en\">\n<head>\n  <meta charset=\"utf-8\">\n  <title>");
    s.append(escape_html(project).as_str());
    s.append(" / ");
    s.append(escape_html(src_path).as_str());
    s.append("</title>\n</head>\n<body>\n\n");
    let ghost head = s@;
    assert(head == code_file_head(project@, src_path@));
    let ghost mut items: Seq<KnowledgeRecord> = Seq::empty();
    let mut i: usize = 0;
    while i < symbols.len()
        invariant
            i <= symbols.len(),
            ids.len() == symbols.len(),
            items.len() == i,
            forall|j: int|
                0 <= j < i ==> is_symbol_item(
                    ids@[j]@,
                    project@,
                    symbols@[j],
                    index.entries_view(),
                    now,
                    #[trigger] items[j],
                ),
            s@ == head + sections_text(items),
        decreases symbols.len() - i,
    {
        let item = symbol_to_item(ids[i].as_str(), project, &symbols[i], index, now);
        let section = emit_section(&item);
        s.append(section.as_str());
        s.push('\n');
        proof {
            let old_items = items;
            items = items.push(item);
            assert(items.drop_last() =~= old_items);
            assert(forall|j: int| 0 <= j < i ==> items[j] == old_items[j]);
        }
        i += 1;
    }
    s.append("</body>\n</html>\n");
    assert(s@ == code_file_html(project@, src_path@, items));
    assert forall|j: int| 0 <= j < items.len() implies is_symbol_item(
        strings_view(ids@)[j],
        project@,
        symbols@[j],
        index.entries_view(),
        now,
        #[trigger] items[j],
    ) by {
        assert(strings_view(ids@)[j] == ids@[j]@);
    }
    s
}

/// What a code-indexing pass did.
#[derive(Debug)]
pub struct IndexReport {
    pub files_parsed: usize,
    pub symbols_emitted: usize,
    pub files_written: usize,
    /// The files that could not be read, with the error.
    pub errors: Vec<(String, String)>,
}

impl Default for IndexReport {
    fn default() -> (r: IndexReport)
        ensures
            r.files_parsed == 0,
            r.symbols_emitted == 0,
            r.files_written == 0,
            r.errors@.len() == 0,
    {
        IndexReport { files_parsed: 0, symbols_emitted: 0, files_written: 0, errors: Vec::new() }
    }
}

/// A code-indexing job: the project's name, its source root and the vault
/// root the HTML files go under.
#[derive(Debug)]
pub struct CodeIndexer<'a> {
    pub project_name: &'a str,
    pub project_root: &'a str,
    pub vault_root: &'a str,
}

/// For each symbol, the id of the symbol whose key it shares last.
pub open spec fn owner_ids(syms: Seq<CodeSymbol>, fresh: Seq<String>) -> Seq<Seq<char>> {
    Seq::new(syms.len(), |i: int| fresh[key_owner(syms, i)]@)
}

impl<'a> CodeIndexer<'a> {
    /// The vault files of a pass, one per source file (given by its path
    /// relative to the project root and its symbols): its path in the vault
    /// and its HTML document. Every symbol draws a fresh id; the name index
    /// lists all of them; a symbol's item carries the id of the last symbol
    /// of its file with the same name and first line.
    pub fn render_files(
        &self,
        paths: &Vec<String>,
        files: &Vec<Vec<CodeSymbol>>,
        now: Timestamp,
    ) -> (r: Vec<(String, String)>)
        requires
            paths.len() == files.len(),
        ensures
            r.len() == files.len(),
            forall|k: int|
                0 <= k < r.len() ==> (#[trigger] r@[k]).0@ == code_html_path_spec(
                    self.project_name@,
                    paths@[k]@,
                ),
            exists|fresh: Seq<Vec<String>>, entries: Seq<(Seq<char>, Seq<Seq<char>>)>|
                {
                    &&& fresh.len() == files.len()
                    &&& forall|k: int|
                        0 <= k < files.len() ==> (#[trigger] fresh[k]).len() == files@[k].len()
                            && forall|i: int| 0 <= i < fresh[k].len() ==> is_ulid_text(#[trigger] fresh[k]@[i]@)
                    &&& indexes(entries, named_ids(files@, fresh))
                    &&& forall|k: int|
                        0 <= k < r.len() ==> is_code_file(
                            self.project_name@,
                            paths@[k]@,
                            files@[k]@,
                            owner_ids(files@[k]@, fresh[k]@),
                            entries,
                            now,
                            (#[trigger] r@[k]).1@,
                        )
                },
    {
        let mut fresh: Vec<Vec<String>> = Vec::new();
        let mut k: usize = 0;
        while k < files.len()
            invariant
                k <= files.len(),
                fresh.len() == k,
                forall|g: int|
                    0 <= g < k ==> (#[trigger] fresh@[g]).len() == files@[g].len() && forall|i: int|
                        0 <= i < fresh@[g].len() ==> is_ulid_text(#[trigger] fresh@[g]@[i]@),
            decreases files.len() - k,
        {
            fresh.push(fresh_ids(&files[k]));
            k += 1;
        }
        let index = name_index(files, &fresh);
        let mut r: Vec<(String, String)> = Vec::new();
        let mut k: usize = 0;
        while k < files.len()
            invariant
                k <= files.len(),
                paths.len() == files.len(),
                fresh.len() == files.len(),
                forall|g: int| 0 <= g < files.len() ==> (#[trigger] fresh@[g]).len() == files@[g].len(),
                r.len() == k,
                forall|g: int|
                    0 <= g < k ==> (#[trigger] r@[g]).0@ == code_html_path_spec(
                        self.project_name@,
                        paths@[g]@,
                    ),
                forall|g: int|
                    0 <= g < k ==> is_code_file(
                        self.project_name@,
                        paths@[g]@,
                        files@[g]@,
                        owner_ids(files@[g]@, fresh@[g]@),
                        index.entries_view(),
                        now,
                        (#[trigger] r@[g]).1@,
                    ),
            decreases files.len() - k,
        {
            let ids = symbol_ids(&files[k], &fresh[k]);
            assert(strings_view(ids@) =~= owner_ids(files@[k as int]@, fresh@[k as int]@));
            let html = emit_file_html(
                self.project_name,
                paths[k].as_str(),
                &files[k],
                &ids,
                &index,
                now,
            );
            let out = code_html_path(self.project_name, paths[k].as_str());
            r.push((out, html));
            k += 1;
        }
        r
    }
}

} // verus!

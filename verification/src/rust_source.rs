//! Rust source file -> code symbols.
//!
//! The top-level definitions of a file (functions, structs, traits, enums,
//! impl blocks and modules, with the methods and items nested in the last
//! two) become symbols in document order. Each symbol records the names it
//! calls; every symbol records the paths of the file's `use` declarations.
use vstd::prelude::*;
use crate::code::{qualified, qualified_spec, CodeSymbol, SymbolKind};
use crate::lexical::{insert_sorted, lemma_sorted_elements, sorted_elements, strictly_sorted};
use crate::schema::opt_view;
use crate::syntax::{
    child_by_field, end_row, named_child, named_child_count, node_kind, node_text,
    parse_rust_tree, root_node, start_row, ts_descendants, ts_end_row, ts_has_field, ts_kind,
    ts_named_count, ts_parse_ok, ts_start_row, ts_text, Step, SyntaxNode, SyntaxTree,
};
use crate::text::{
    char_vec, chars_eq, copy_strings, slice_chars, starts_with, str_eq, string_from_chars,
    strings_view, to_owned_string, trim, trim_chars,
};

verus! {

// ---------------------------------------------------------------------------
// What the library reads of a node
// ---------------------------------------------------------------------------
/// The path of the child in a field.
pub open spec fn field_path(p: Seq<Step>, field: Seq<char>) -> Seq<Step> {
    p.push(Step::Field(field))
}

/// The text of the child in a field, if there is one.
pub open spec fn field_text_of(src: Seq<char>, p: Seq<Step>, field: Seq<char>) -> Option<
    Seq<char>,
> {
    if ts_has_field(src, p, field) {
        Some(ts_text(src, field_path(p, field)))
    } else {
        None
    }
}

/// The name a call goes to, from the node in the call's `function` field:
/// an identifier's text, the last segment of a path, the field of a method
/// call, or that of the name (else the type) inside a generic function or
/// type. `fuel` bounds the descent; `call_target` gives enough of it.
pub open spec fn call_target_fuel(src: Seq<char>, p: Seq<Step>, fuel: nat) -> Option<Seq<char>>
    decreases fuel,
{
    let k = ts_kind(src, p);
    if k == "identifier"@ {
        Some(ts_text(src, p))
    } else if k == "scoped_identifier"@ {
        match field_text_of(src, p, "name"@) {
            Some(t) => Some(t),
            None => Some(ts_text(src, p)),
        }
    } else if k == "field_expression"@ {
        field_text_of(src, p, "field"@)
    } else if (k == "generic_function"@ || k == "type"@) && fuel > 0 {
        if ts_has_field(src, p, "name"@) {
            call_target_fuel(src, field_path(p, "name"@), (fuel - 1) as nat)
        } else if ts_has_field(src, p, "type"@) {
            call_target_fuel(src, field_path(p, "type"@), (fuel - 1) as nat)
        } else {
            None
        }
    } else {
        None
    }
}

pub open spec fn call_target(src: Seq<char>, p: Seq<Step>) -> Option<Seq<char>> {
    call_target_fuel(src, p, ts_descendants(src, p))
}

/// The name a node calls: the target of a call expression, or a macro's
/// name followed by `!`.
pub open spec fn node_call(src: Seq<char>, p: Seq<Step>) -> Option<Seq<char>> {
    let k = ts_kind(src, p);
    if k == "call_expression"@ {
        if ts_has_field(src, p, "function"@) {
            call_target(src, field_path(p, "function"@))
        } else {
            None
        }
    } else if k == "macro_invocation"@ {
        match field_text_of(src, p, "macro"@) {
            Some(t) => if t.len() > 0 {
                Some(t + "!"@)
            } else {
                None
            },
            None => None,
        }
    } else {
        None
    }
}

pub open spec fn opt_set(o: Option<Seq<char>>) -> Set<Seq<char>> {
    match o {
        Some(x) => set![x],
        None => Set::empty(),
    }
}

/// The names called anywhere in the subtree of a node (named nodes only).
pub open spec fn calls_fuel(src: Seq<char>, p: Seq<Step>, fuel: nat) -> Set<Seq<char>>
    decreases fuel, 1nat, 0nat,
{
    opt_set(node_call(src, p)) + calls_children(src, p, ts_named_count(src, p), fuel)
}

/// The names called in the subtrees of the first `n` named children.
pub open spec fn calls_children(src: Seq<char>, p: Seq<Step>, n: nat, fuel: nat) -> Set<
    Seq<char>,
>
    decreases fuel, 0nat, n,
{
    if n == 0 || fuel == 0 {
        Set::empty()
    } else {
        calls_children(src, p, (n - 1) as nat, fuel) + calls_fuel(
            src,
            p.push(Step::Named((n - 1) as nat)),
            (fuel - 1) as nat,
        )
    }
}

pub open spec fn calls_in(src: Seq<char>, p: Seq<Step>) -> Set<Seq<char>> {
    calls_fuel(src, p, ts_descendants(src, p))
}

/// Trailing `;` removed.
pub open spec fn trim_semicolons(s: Seq<char>) -> Seq<char>
    decreases s.len(),
{
    if s.len() > 0 && s.last() == ';' {
        trim_semicolons(s.drop_last())
    } else {
        s
    }
}

/// `s` without the prefix `p`, or `s` itself where it does not start so.
pub open spec fn strip_or_keep(s: Seq<char>, p: Seq<char>) -> Seq<char> {
    if starts_with(s, p) {
        s.skip(p.len() as int)
    } else {
        s
    }
}

/// The first of the visibility prefixes `pub `, `pub(crate) `,
/// `pub(super) ` that `s` starts with, removed.
pub open spec fn strip_visibility(s: Seq<char>) -> Seq<char> {
    if starts_with(s, "pub "@) {
        s.skip("pub "@.len() as int)
    } else if starts_with(s, "pub(crate) "@) {
        s.skip("pub(crate) "@.len() as int)
    } else if starts_with(s, "pub(super) "@) {
        s.skip("pub(super) "@.len() as int)
    } else {
        s
    }
}

/// The path of a `use` declaration, from its text.
pub open spec fn use_path(text: Seq<char>) -> Seq<char> {
    let txt = trim(trim_semicolons(text));
    let path = trim(strip_or_keep(txt, "use "@));
    trim(strip_visibility(path))
}

/// The path a `use` declaration imports, when it is not empty.
pub open spec fn node_import(src: Seq<char>, p: Seq<Step>) -> Option<Seq<char>> {
    let u = use_path(ts_text(src, p));
    if u.len() > 0 {
        Some(u)
    } else {
        None
    }
}

/// The `use` paths in the subtree of a node; the search does not go
/// inside a `use` declaration.
pub open spec fn imports_fuel(src: Seq<char>, p: Seq<Step>, fuel: nat) -> Set<Seq<char>>
    decreases fuel, 1nat, 0nat,
{
    if ts_kind(src, p) == "use_declaration"@ {
        opt_set(node_import(src, p))
    } else {
        imports_children(src, p, ts_named_count(src, p), fuel)
    }
}

pub open spec fn imports_children(src: Seq<char>, p: Seq<Step>, n: nat, fuel: nat) -> Set<
    Seq<char>,
>
    decreases fuel, 0nat, n,
{
    if n == 0 || fuel == 0 {
        Set::empty()
    } else {
        imports_children(src, p, (n - 1) as nat, fuel) + imports_fuel(
            src,
            p.push(Step::Named((n - 1) as nat)),
            (fuel - 1) as nat,
        )
    }
}

pub open spec fn imports_in(src: Seq<char>, p: Seq<Step>) -> Set<Seq<char>> {
    imports_fuel(src, p, ts_descendants(src, p))
}

// ---------------------------------------------------------------------------
// Symbols
// ---------------------------------------------------------------------------
/// A code symbol as plain values.
pub struct SymbolModel {
    pub name: Seq<char>,
    pub qualified_name: Seq<char>,
    pub kind: SymbolKind,
    pub file_path: Seq<char>,
    pub start_line: nat,
    pub end_line: nat,
    pub body: Seq<char>,
    pub calls: Seq<Seq<char>>,
    pub imports: Seq<Seq<char>>,
    pub language: Seq<char>,
}

pub open spec fn symbol_model(s: CodeSymbol) -> SymbolModel {
    SymbolModel {
        name: s.name@,
        qualified_name: s.qualified_name@,
        kind: s.kind,
        file_path: s.file_path@,
        start_line: s.start_line as nat,
        end_line: s.end_line as nat,
        body: s.body@,
        calls: strings_view(s.calls@),
        imports: strings_view(s.imports@),
        language: s.language@,
    }
}

pub open spec fn symbols_view(v: Seq<CodeSymbol>) -> Seq<SymbolModel> {
    v.map_values(|s: CodeSymbol| symbol_model(s))
}

/// The one-based number of a zero-based row (the largest `usize` where
/// there is no next one).
pub open spec fn line_number(row: nat) -> nat {
    if row < usize::MAX {
        row + 1
    } else {
        usize::MAX as nat
    }
}

/// The symbol of the node at `p`: its lines are one-based, its body is the
/// node's text.
pub open spec fn symbol_at(
    src: Seq<char>,
    p: Seq<Step>,
    name: Seq<char>,
    kind: SymbolKind,
    file: Seq<char>,
    imports: Seq<Seq<char>>,
    stack: Seq<Seq<char>>,
    calls: Seq<Seq<char>>,
) -> SymbolModel {
    SymbolModel {
        name,
        qualified_name: qualified_spec(stack, name),
        kind,
        file_path: file,
        start_line: line_number(ts_start_row(src, p)),
        end_line: line_number(ts_end_row(src, p)),
        body: ts_text(src, p),
        calls,
        imports,
        language: "rust"@,
    }
}

/// `impl Type` or `impl Trait for Type` (`anonymous` when there is no type).
pub open spec fn impl_label(src: Seq<char>, p: Seq<Step>) -> Seq<char> {
    let ty = match field_text_of(src, p, "type"@) {
        Some(t) => t,
        None => "anonymous"@,
    };
    match field_text_of(src, p, "trait"@) {
        Some(t) => "impl "@ + t + " for "@ + ty,
        None => "impl "@ + ty,
    }
}

/// The symbol of a named definition without calls, if it has a name.
pub open spec fn named_symbol(
    src: Seq<char>,
    c: Seq<Step>,
    kind: SymbolKind,
    file: Seq<char>,
    imports: Seq<Seq<char>>,
    stack: Seq<Seq<char>>,
) -> Seq<SymbolModel> {
    match field_text_of(src, c, "name"@) {
        Some(n) => seq![symbol_at(src, c, n, kind, file, imports, stack, Seq::empty())],
        None => Seq::empty(),
    }
}

/// The symbols one item of a declaration list gives: itself, and for an
/// impl block or a module, the items of its body, qualified by its name.
pub open spec fn item_symbols(
    src: Seq<char>,
    c: Seq<Step>,
    file: Seq<char>,
    imports: Seq<Seq<char>>,
    stack: Seq<Seq<char>>,
    fuel: nat,
) -> Seq<SymbolModel>
    decreases fuel, 0nat, 0nat,
{
    let k = ts_kind(src, c);
    if k == "function_item"@ {
        match field_text_of(src, c, "name"@) {
            Some(n) => seq![
                symbol_at(
                    src,
                    c,
                    n,
                    SymbolKind::Function,
                    file,
                    imports,
                    stack,
                    sorted_elements(calls_in(src, c)),
                ),
            ],
            None => Seq::empty(),
        }
    } else if k == "struct_item"@ {
        named_symbol(src, c, SymbolKind::Struct, file, imports, stack)
    } else if k == "trait_item"@ {
        named_symbol(src, c, SymbolKind::Trait, file, imports, stack)
    } else if k == "enum_item"@ {
        named_symbol(src, c, SymbolKind::Enum, file, imports, stack)
    } else if k == "impl_item"@ {
        let label = impl_label(src, c);
        seq![
            symbol_at(
                src,
                c,
                label,
                SymbolKind::Impl,
                file,
                imports,
                stack,
                sorted_elements(calls_in(src, c)),
            ),
        ] + (if ts_has_field(src, c, "body"@) && fuel > 0 {
            walk_fuel(src, field_path(c, "body"@), file, imports, stack.push(label), (fuel - 1) as nat)
        } else {
            Seq::empty()
        })
    } else if k == "mod_item"@ {
        let name = match field_text_of(src, c, "name"@) {
            Some(n) => n,
            None => Seq::empty(),
        };
        seq![symbol_at(src, c, name, SymbolKind::Module, file, imports, stack, Seq::empty())] + (
        if ts_has_field(src, c, "body"@) && fuel > 0 {
            walk_fuel(src, field_path(c, "body"@), file, imports, stack.push(name), (fuel - 1) as nat)
        } else {
            Seq::empty()
        })
    } else {
        Seq::empty()
    }
}

/// The symbols of the first `n` named children of a node.
pub open spec fn walk_children(
    src: Seq<char>,
    p: Seq<Step>,
    n: nat,
    file: Seq<char>,
    imports: Seq<Seq<char>>,
    stack: Seq<Seq<char>>,
    fuel: nat,
) -> Seq<SymbolModel>
    decreases fuel, 1nat, n,
{
    if n == 0 {
        Seq::empty()
    } else {
        walk_children(src, p, (n - 1) as nat, file, imports, stack, fuel) + item_symbols(
            src,
            p.push(Step::Named((n - 1) as nat)),
            file,
            imports,
            stack,
            fuel,
        )
    }
}

/// The symbols of the items directly under a node, in order.
pub open spec fn walk_fuel(
    src: Seq<char>,
    p: Seq<Step>,
    file: Seq<char>,
    imports: Seq<Seq<char>>,
    stack: Seq<Seq<char>>,
    fuel: nat,
) -> Seq<SymbolModel>
    decreases fuel, 2nat, 0nat,
{
    walk_children(src, p, ts_named_count(src, p), file, imports, stack, fuel)
}

/// The `use` paths of a file, sorted, each once.
pub open spec fn file_imports(src: Seq<char>) -> Seq<Seq<char>> {
    sorted_elements(imports_in(src, Seq::empty()))
}

/// The symbols of a Rust source file.
pub open spec fn rust_symbols(src: Seq<char>, file_path: Seq<char>) -> Seq<SymbolModel> {
    walk_fuel(
        src,
        Seq::empty(),
        file_path,
        file_imports(src),
        Seq::empty(),
        ts_descendants(src, Seq::empty()),
    )
}

/// Every symbol's first line is at most its last line.
pub open spec fn lines_ordered(v: Seq<CodeSymbol>) -> bool {
    forall|i: int| 0 <= i < v.len() ==> (#[trigger] v[i]).start_line <= v[i].end_line
}

/// Every symbol names the given file, lists the given imports and is Rust.
pub open spec fn all_from(syms: Seq<SymbolModel>, file: Seq<char>, imports: Seq<Seq<char>>) -> bool {
    forall|i: int|
        0 <= i < syms.len() ==> (#[trigger] syms[i]).file_path == file && syms[i].imports
            == imports && syms[i].language == "rust"@
}

proof fn lemma_all_from_concat(
    a: Seq<SymbolModel>,
    b: Seq<SymbolModel>,
    file: Seq<char>,
    imports: Seq<Seq<char>>,
)
    requires
        all_from(a, file, imports),
        all_from(b, file, imports),
    ensures
        all_from(a + b, file, imports),
{
    assert forall|i: int| 0 <= i < (a + b).len() implies (#[trigger] (a + b)[i]).file_path == file
        && (a + b)[i].imports == imports && (a + b)[i].language == "rust"@ by {
        if i < a.len() {
            assert((a + b)[i] == a[i]);
        } else {
            assert((a + b)[i] == b[i - a.len()]);
        }
    }
}

proof fn lemma_item_fields(
    src: Seq<char>,
    c: Seq<Step>,
    file: Seq<char>,
    imports: Seq<Seq<char>>,
    stack: Seq<Seq<char>>,
    fuel: nat,
)
    ensures
        all_from(item_symbols(src, c, file, imports, stack, fuel), file, imports),
    decreases fuel, 0nat, 0nat,
{
    let k = ts_kind(src, c);
    if k == "impl_item"@ || k == "mod_item"@ {
        if fuel > 0 {
            let label = impl_label(src, c);
            let name = match field_text_of(src, c, "name"@) {
                Some(n) => n,
                None => Seq::empty(),
            };
            lemma_walk_fields(src, field_path(c, "body"@), file, imports, stack.push(label), (fuel - 1) as nat);
            lemma_walk_fields(src, field_path(c, "body"@), file, imports, stack.push(name), (fuel - 1) as nat);
        }
        let items = item_symbols(src, c, file, imports, stack, fuel);
        assert forall|i: int| 0 <= i < items.len() implies (#[trigger] items[i]).file_path == file
            && items[i].imports == imports && items[i].language == "rust"@ by {
            if i > 0 {
                assert(items[i] == items.skip(1)[i - 1]);
            }
        }
    }
}

proof fn lemma_children_fields(
    src: Seq<char>,
    p: Seq<Step>,
    n: nat,
    file: Seq<char>,
    imports: Seq<Seq<char>>,
    stack: Seq<Seq<char>>,
    fuel: nat,
)
    ensures
        all_from(walk_children(src, p, n, file, imports, stack, fuel), file, imports),
    decreases fuel, 1nat, n,
{
    if n > 0 {
        lemma_children_fields(src, p, (n - 1) as nat, file, imports, stack, fuel);
        lemma_item_fields(src, p.push(Step::Named((n - 1) as nat)), file, imports, stack, fuel);
        lemma_all_from_concat(
            walk_children(src, p, (n - 1) as nat, file, imports, stack, fuel),
            item_symbols(src, p.push(Step::Named((n - 1) as nat)), file, imports, stack, fuel),
            file,
            imports,
        );
    }
}

proof fn lemma_walk_fields(
    src: Seq<char>,
    p: Seq<Step>,
    file: Seq<char>,
    imports: Seq<Seq<char>>,
    stack: Seq<Seq<char>>,
    fuel: nat,
)
    ensures
        all_from(walk_fuel(src, p, file, imports, stack, fuel), file, imports),
    decreases fuel, 2nat, 0nat,
{
    lemma_children_fields(src, p, ts_named_count(src, p), file, imports, stack, fuel);
}

/// Every symbol of a Rust file carries the file path it was given, the
/// file's `use` paths, and the language `rust`.
pub proof fn lemma_symbols_carry_file(src: Seq<char>, file_path: Seq<char>)
    ensures
        all_from(rust_symbols(src, file_path), file_path, file_imports(src)),
{
    lemma_walk_fields(
        src,
        Seq::empty(),
        file_path,
        file_imports(src),
        Seq::empty(),
        ts_descendants(src, Seq::empty()),
    );
}

/// The grammar kind of the node a symbol of kind `k` is made from.
pub open spec fn node_kind_for(k: SymbolKind) -> Seq<char> {
    match k {
        SymbolKind::Function => "function_item"@,
        SymbolKind::Struct => "struct_item"@,
        SymbolKind::Trait => "trait_item"@,
        SymbolKind::Enum => "enum_item"@,
        SymbolKind::Impl => "impl_item"@,
        SymbolKind::Module => "mod_item"@,
    }
}

/// `q` is `name`, or `name` qualified by a path: it ends with `::name`.
pub open spec fn qualifies(q: Seq<char>, name: Seq<char>) -> bool {
    ||| q == name
    ||| (q.len() >= name.len() + 2 && q.skip(q.len() - (name.len() + 2)) == seq![':', ':']
        + name)
}

proof fn lemma_qualified_ends_with_name(path: Seq<Seq<char>>, name: Seq<char>)
    ensures
        qualifies(qualified_spec(path, name), name),
{
    reveal_strlit("::");
    if path.len() > 0 {
        let q = qualified_spec(path, name);
        let j = crate::text::join(path, "::"@);
        assert(q == j + "::"@ + name);
        assert(q.skip(q.len() - (name.len() + 2)) =~= seq![':', ':'] + name);
    }
}

/// `s` is made from the node at `p`: the node's grammar kind is the one of
/// `s`'s kind, `s` spans the node's text and lines, its qualified name ends
/// with its name, and a function, struct, trait or enum is named by the
/// node's `name` field.
pub open spec fn made_from(src: Seq<char>, p: Seq<Step>, s: SymbolModel) -> bool {
    &&& ts_kind(src, p) == node_kind_for(s.kind)
    &&& qualifies(s.qualified_name, s.name)
    &&& s.body == ts_text(src, p)
    &&& s.start_line == line_number(ts_start_row(src, p))
    &&& s.end_line == line_number(ts_end_row(src, p))
    &&& (s.kind != SymbolKind::Impl && s.kind != SymbolKind::Module) ==> field_text_of(
        src,
        p,
        "name"@,
    ) == Some(s.name)
}

/// `s` is made from some node of the tree.
pub open spec fn made_from_a_node(src: Seq<char>, s: SymbolModel) -> bool {
    exists|p: Seq<Step>| #[trigger] made_from(src, p, s)
}

/// Every symbol is made from some node of the tree.
pub open spec fn all_made_from_nodes(src: Seq<char>, syms: Seq<SymbolModel>) -> bool {
    forall|i: int| 0 <= i < syms.len() ==> #[trigger] made_from_a_node(src, syms[i])
}

proof fn lemma_made_from_concat(src: Seq<char>, a: Seq<SymbolModel>, b: Seq<SymbolModel>)
    requires
        all_made_from_nodes(src, a),
        all_made_from_nodes(src, b),
    ensures
        all_made_from_nodes(src, a + b),
{
    assert forall|i: int| 0 <= i < (a + b).len() implies #[trigger] made_from_a_node(
        src,
        (a + b)[i],
    ) by {
        if i < a.len() {
            assert((a + b)[i] == a[i]);
            assert(made_from_a_node(src, a[i]));
        } else {
            let j = i - a.len();
            assert(b[j] == (a + b)[i]);
            assert(made_from_a_node(src, b[j]));
        }
    }
}

proof fn lemma_item_made_from(
    src: Seq<char>,
    c: Seq<Step>,
    file: Seq<char>,
    imports: Seq<Seq<char>>,
    stack: Seq<Seq<char>>,
    fuel: nat,
)
    ensures
        all_made_from_nodes(src, item_symbols(src, c, file, imports, stack, fuel)),
    decreases fuel, 0nat, 0nat,
{
    reveal_strlit("function_item");
    reveal_strlit("struct_item");
    reveal_strlit("trait_item");
    reveal_strlit("enum_item");
    reveal_strlit("impl_item");
    reveal_strlit("mod_item");
    assert("impl_item"@ != "enum_item"@) by {
        assert("impl_item"@[0] != "enum_item"@[0]);
    }
    assert("function_item"@.len() == 13 && "struct_item"@.len() == 11 && "trait_item"@.len() == 10
        && "enum_item"@.len() == 9 && "impl_item"@.len() == 9 && "mod_item"@.len() == 8);
    assert("impl_item"@ != "function_item"@ && "impl_item"@ != "struct_item"@
        && "impl_item"@ != "trait_item"@);
    assert("mod_item"@ != "function_item"@ && "mod_item"@ != "struct_item"@ && "mod_item"@
        != "trait_item"@ && "mod_item"@ != "enum_item"@ && "mod_item"@ != "impl_item"@);
    let k = ts_kind(src, c);
    let items = item_symbols(src, c, file, imports, stack, fuel);
    if k == "impl_item"@ || k == "mod_item"@ {
        if ts_has_field(src, c, "body"@) && fuel > 0 {
            if k == "impl_item"@ {
                lemma_walk_made_from(
                    src,
                    field_path(c, "body"@),
                    file,
                    imports,
                    stack.push(impl_label(src, c)),
                    (fuel - 1) as nat,
                );
            } else {
                let name = match field_text_of(src, c, "name"@) {
                    Some(n) => n,
                    None => Seq::empty(),
                };
                lemma_walk_made_from(
                    src,
                    field_path(c, "body"@),
                    file,
                    imports,
                    stack.push(name),
                    (fuel - 1) as nat,
                );
            }
        }
        let head = if k == "impl_item"@ {
            symbol_at(
                src,
                c,
                impl_label(src, c),
                SymbolKind::Impl,
                file,
                imports,
                stack,
                sorted_elements(calls_in(src, c)),
            )
        } else {
            let name = match field_text_of(src, c, "name"@) {
                Some(n) => n,
                None => Seq::empty(),
            };
            symbol_at(src, c, name, SymbolKind::Module, file, imports, stack, Seq::empty())
        };
        let rest = if ts_has_field(src, c, "body"@) && fuel > 0 {
            walk_fuel(
                src,
                field_path(c, "body"@),
                file,
                imports,
                stack.push(if k == "impl_item"@ {
                    impl_label(src, c)
                } else {
                    match field_text_of(src, c, "name"@) {
                        Some(n) => n,
                        None => Seq::empty(),
                    }
                }),
                (fuel - 1) as nat,
            )
        } else {
            Seq::empty()
        };
        lemma_qualified_ends_with_name(stack, head.name);
        assert(items == seq![head] + rest);
        assert(items[0] == head);
        assert(ts_kind(src, c) == node_kind_for(head.kind));
        assert(made_from(src, c, items[0]));
        assert forall|i: int| 0 <= i < items.len() implies #[trigger] made_from_a_node(
            src,
            items[i],
        ) by {
            if i == 0 {
                assert(made_from(src, c, items[0]));
            } else {
                let j = i - 1;
                assert(items[i] == rest[j]);
                assert(made_from_a_node(src, rest[j]));
            }
        }
    } else if items.len() > 0 {
        assert(items.len() == 1);
        lemma_qualified_ends_with_name(stack, items[0].name);
        assert(made_from(src, c, items[0]));
        assert(made_from_a_node(src, items[0]));
    }
}

proof fn lemma_children_made_from(
    src: Seq<char>,
    p: Seq<Step>,
    n: nat,
    file: Seq<char>,
    imports: Seq<Seq<char>>,
    stack: Seq<Seq<char>>,
    fuel: nat,
)
    ensures
        all_made_from_nodes(src, walk_children(src, p, n, file, imports, stack, fuel)),
    decreases fuel, 1nat, n,
{
    if n > 0 {
        lemma_children_made_from(src, p, (n - 1) as nat, file, imports, stack, fuel);
        lemma_item_made_from(src, p.push(Step::Named((n - 1) as nat)), file, imports, stack, fuel);
        lemma_made_from_concat(
            src,
            walk_children(src, p, (n - 1) as nat, file, imports, stack, fuel),
            item_symbols(src, p.push(Step::Named((n - 1) as nat)), file, imports, stack, fuel),
        );
    }
}

proof fn lemma_walk_made_from(
    src: Seq<char>,
    p: Seq<Step>,
    file: Seq<char>,
    imports: Seq<Seq<char>>,
    stack: Seq<Seq<char>>,
    fuel: nat,
)
    ensures
        all_made_from_nodes(src, walk_fuel(src, p, file, imports, stack, fuel)),
    decreases fuel, 2nat, 0nat,
{
    lemma_children_made_from(src, p, ts_named_count(src, p), file, imports, stack, fuel);
}

/// Every symbol of a Rust file is made from a node of its syntax tree
/// whose grammar kind matches the symbol's kind (`function_item` for a
/// function, `struct_item` for a struct, `enum_item` for an enum,
/// `trait_item` for a trait, `impl_item` for an impl block, `mod_item` for
/// a module), spanning that node's text and lines, and named by the node's
/// `name` field where it is a function, struct, trait or enum; its
/// qualified name ends with its name.
pub proof fn lemma_symbols_made_from_nodes(src: Seq<char>, file_path: Seq<char>)
    ensures
        all_made_from_nodes(src, rust_symbols(src, file_path)),
{
    lemma_walk_made_from(
        src,
        Seq::empty(),
        file_path,
        file_imports(src),
        Seq::empty(),
        ts_descendants(src, Seq::empty()),
    );
}

// ---------------------------------------------------------------------------
// Reading nodes
// ---------------------------------------------------------------------------
fn field_text(n: &SyntaxNode, field: &str) -> (r: Option<String>)
    ensures
        opt_view(r) == field_text_of(n.source(), n.path(), field@),
{
    match child_by_field(n, field) {
        Some(c) => Some(node_text(&c)),
        None => None,
    }
}

/// One-based first and last line of a node.
fn line_range(n: &SyntaxNode) -> (r: (usize, usize))
    ensures
        r.0 == line_number(ts_start_row(n.source(), n.path())),
        r.1 == line_number(ts_end_row(n.source(), n.path())),
        r.0 <= r.1,
{
    (start_row(n).saturating_add(1), end_row(n).saturating_add(1))
}

/// The callable name under a call's `function` child.
fn call_target_name(n: &SyntaxNode) -> (r: Option<String>)
    ensures
        forall|f: nat|
            f >= ts_descendants(n.source(), n.path()) ==> opt_view(r) == #[trigger] call_target_fuel(
                n.source(),
                n.path(),
                f,
            ),
    decreases ts_descendants(n.source(), n.path()),
{
    let k = node_kind(n);
    if str_eq(k, "identifier") {
        Some(node_text(n))
    } else if str_eq(k, "scoped_identifier") {
        match field_text(n, "name") {
            Some(t) => Some(t),
            None => Some(node_text(n)),
        }
    } else if str_eq(k, "field_expression") {
        field_text(n, "field")
    } else if str_eq(k, "generic_function") || str_eq(k, "type") {
        match child_by_field(n, "name") {
            Some(c) => {
                let r = call_target_name(&c);
                assert forall|f: nat| f >= ts_descendants(n.source(), n.path()) implies opt_view(r)
                    == #[trigger] call_target_fuel(n.source(), n.path(), f) by {
                    assert(opt_view(r) == call_target_fuel(c.source(), c.path(), (f - 1) as nat));
                }
                r
            },
            None => match child_by_field(n, "type") {
                Some(c) => {
                    let r = call_target_name(&c);
                    assert forall|f: nat| f >= ts_descendants(n.source(), n.path()) implies opt_view(
                        r,
                    ) == #[trigger] call_target_fuel(n.source(), n.path(), f) by {
                        assert(opt_view(r) == call_target_fuel(
                            c.source(),
                            c.path(),
                            (f - 1) as nat,
                        ));
                    }
                    r
                },
                None => None,
            },
        }
    } else {
        None
    }
}

/// The name a node calls, if it is a call or a macro invocation.
fn node_call_name(n: &SyntaxNode) -> (r: Option<String>)
    ensures
        opt_view(r) == node_call(n.source(), n.path()),
{
    let k = node_kind(n);
    if str_eq(k, "call_expression") {
        match child_by_field(n, "function") {
            Some(callee) => {
                let r = call_target_name(&callee);
                assert(opt_view(r) == call_target_fuel(
                    callee.source(),
                    callee.path(),
                    ts_descendants(callee.source(), callee.path()),
                ));
                r
            },
            None => None,
        }
    } else if str_eq(k, "macro_invocation") {
        match field_text(n, "macro") {
            Some(name) => {
                if char_vec(name.as_str()).len() > 0 {
                    let mut s = name;
                    s.push('!');
                    proof {
                        reveal_strlit("!");
                    }
                    Some(s)
                } else {
                    None
                }
            },
            None => None,
        }
    } else {
        None
    }
}

/// Adds the names called in the subtree of `n` to a sorted list.
fn gather_calls(n: &SyntaxNode, acc: &mut Vec<String>)
    requires
        strictly_sorted(strings_view(old(acc)@)),
    ensures
        strictly_sorted(strings_view(final(acc)@)),
        forall|f: nat|
            f >= ts_descendants(n.source(), n.path()) ==> strings_view(final(acc)@).to_set()
                == strings_view(old(acc)@).to_set() + #[trigger] calls_fuel(
                n.source(),
                n.path(),
                f,
            ),
    decreases ts_descendants(n.source(), n.path()),
{
    let ghost src = n.source();
    let ghost p = n.path();
    let ghost s0 = strings_view(acc@).to_set();
    let own = node_call_name(n);
    match own {
        Some(c) => insert_sorted(acc, c),
        None => {},
    }
    let ghost s1 = strings_view(acc@).to_set();
    assert(s1 == s0 + opt_set(node_call(src, p)));
    let count = named_child_count(n);
    let mut i: usize = 0;
    while i < count
        invariant
            i <= count,
            count == ts_named_count(src, p),
            src == n.source(),
            p == n.path(),
            strictly_sorted(strings_view(acc@)),
            forall|f: nat|
                f >= ts_descendants(src, p) ==> strings_view(acc@).to_set() == s1
                    + #[trigger] calls_children(src, p, i as nat, f),
        decreases count - i,
    {
        let c = named_child(n, i).unwrap();
        let ghost before = strings_view(acc@).to_set();
        let ghost k = i as nat;
        gather_calls(&c, acc);
        i += 1;
        assert forall|f: nat| f >= ts_descendants(src, p) implies strings_view(acc@).to_set() == s1
            + #[trigger] calls_children(src, p, i as nat, f) by {
            assert(before == s1 + calls_children(src, p, k, f));
            assert(strings_view(acc@).to_set() == before + calls_fuel(c.source(), c.path(), (f - 1) as nat));
            assert(calls_children(src, p, i as nat, f) == calls_children(src, p, k, f)
                + calls_fuel(src, p.push(Step::Named(k)), (f - 1) as nat));
            assert(strings_view(acc@).to_set() =~= s1 + calls_children(src, p, i as nat, f));
        }
    }
    assert forall|f: nat| f >= ts_descendants(src, p) implies strings_view(acc@).to_set() == s0
        + #[trigger] calls_fuel(src, p, f) by {
        assert(strings_view(acc@).to_set() == s1 + calls_children(src, p, i as nat, f));
        assert(calls_fuel(src, p, f) == opt_set(node_call(src, p)) + calls_children(src, p, i as nat, f));
        assert(strings_view(acc@).to_set() =~= s0 + calls_fuel(src, p, f));
    }
}

/// The names called in the subtree of a node, sorted, each once.
fn collect_calls(n: &SyntaxNode) -> (r: Vec<String>)
    ensures
        strings_view(r@) == sorted_elements(calls_in(n.source(), n.path())),
{
    let mut acc: Vec<String> = Vec::new();
    assert(strings_view(acc@) =~= Seq::<Seq<char>>::empty());
    assert(Seq::<Seq<char>>::empty().to_set() =~= Set::<Seq<char>>::empty());
    gather_calls(n, &mut acc);
    assert(strings_view(acc@).to_set() =~= calls_in(n.source(), n.path()));
    proof {
        lemma_sorted_elements(strings_view(acc@));
    }
    acc
}

/// `s` ends with `;` removed as often as it does.
fn trim_semicolon_chars(s: &Vec<char>) -> (r: Vec<char>)
    ensures
        r@ == trim_semicolons(s@),
{
    let mut n = s.len();
    assert(s@.take(n as int) =~= s@);
    while n > 0 && s[n - 1] == ';'
        invariant
            n <= s.len(),
            trim_semicolons(s@) == trim_semicolons(s@.take(n as int)),
        decreases n,
    {
        assert(s@.take(n as int).drop_last() =~= s@.take(n - 1));
        n -= 1;
    }
    assert(trim_semicolons(s@.take(n as int)) == s@.take(n as int));
    let r = slice_chars(s, 0, n);
    assert(r@ =~= s@.take(n as int));
    r
}

fn strip_or_keep_chars(s: &Vec<char>, p: &str) -> (r: Vec<char>)
    ensures
        r@ == strip_or_keep(s@, p@),
{
    let pv = char_vec(p);
    if pv.len() <= s.len() {
        let head = slice_chars(s, 0, pv.len());
        assert(head@ =~= s@.take(pv.len() as int));
        if chars_eq(&head, &pv) {
            let rest = slice_chars(s, pv.len(), s.len());
            assert(rest@ =~= s@.skip(pv.len() as int));
            return rest;
        }
    }
    let r = slice_chars(s, 0, s.len());
    assert(r@ =~= s@);
    r
}

fn strip_visibility_chars(s: &Vec<char>) -> (r: Vec<char>)
    ensures
        r@ == strip_visibility(s@),
{
    proof {
        reveal_strlit("pub ");
        reveal_strlit("pub(crate) ");
    }
    let a = strip_or_keep_chars(s, "pub ");
    if a.len() != s.len() {
        return a;
    }
    let b = strip_or_keep_chars(s, "pub(crate) ");
    if b.len() != s.len() {
        return b;
    }
    strip_or_keep_chars(s, "pub(super) ")
}

/// The path of a `use` declaration, from its text.
fn use_path_of(text: &str) -> (r: String)
    ensures
        r@ == use_path(text@),
{
    let cs = char_vec(text);
    let txt = trim_chars(&trim_semicolon_chars(&cs));
    let path = trim_chars(&strip_or_keep_chars(&txt, "use "));
    let r = trim_chars(&strip_visibility_chars(&path));
    string_from_chars(&r)
}

/// Adds the `use` paths in the subtree of `n` to a sorted list.
fn gather_imports(n: &SyntaxNode, acc: &mut Vec<String>)
    requires
        strictly_sorted(strings_view(old(acc)@)),
    ensures
        strictly_sorted(strings_view(final(acc)@)),
        forall|f: nat|
            f >= ts_descendants(n.source(), n.path()) ==> strings_view(final(acc)@).to_set()
                == strings_view(old(acc)@).to_set() + #[trigger] imports_fuel(
                n.source(),
                n.path(),
                f,
            ),
    decreases ts_descendants(n.source(), n.path()),
{
    let ghost src = n.source();
    let ghost p = n.path();
    let ghost s0 = strings_view(acc@).to_set();
    if str_eq(node_kind(n), "use_declaration") {
        let path = use_path_of(node_text(n).as_str());
        if char_vec(path.as_str()).len() > 0 {
            insert_sorted(acc, path);
        }
        assert(strings_view(acc@).to_set() =~= s0 + opt_set(node_import(src, p)));
        return;
    }
    let count = named_child_count(n);
    let mut i: usize = 0;
    assert(s0 + Set::<Seq<char>>::empty() =~= s0);
    while i < count
        invariant
            i <= count,
            count == ts_named_count(src, p),
            src == n.source(),
            p == n.path(),
            ts_kind(src, p) != "use_declaration"@,
            strictly_sorted(strings_view(acc@)),
            forall|f: nat|
                f >= ts_descendants(src, p) ==> strings_view(acc@).to_set() == s0
                    + #[trigger] imports_children(src, p, i as nat, f),
        decreases count - i,
    {
        let c = named_child(n, i).unwrap();
        let ghost before = strings_view(acc@).to_set();
        let ghost k = i as nat;
        gather_imports(&c, acc);
        i += 1;
        assert forall|f: nat| f >= ts_descendants(src, p) implies strings_view(acc@).to_set() == s0
            + #[trigger] imports_children(src, p, i as nat, f) by {
            assert(before == s0 + imports_children(src, p, k, f));
            assert(strings_view(acc@).to_set() == before + imports_fuel(
                c.source(),
                c.path(),
                (f - 1) as nat,
            ));
            assert(imports_children(src, p, i as nat, f) == imports_children(src, p, k, f)
                + imports_fuel(src, p.push(Step::Named(k)), (f - 1) as nat));
            assert(strings_view(acc@).to_set() =~= s0 + imports_children(src, p, i as nat, f));
        }
    }
    assert forall|f: nat| f >= ts_descendants(src, p) implies strings_view(acc@).to_set() == s0
        + #[trigger] imports_fuel(src, p, f) by {
        assert(strings_view(acc@).to_set() == s0 + imports_children(src, p, i as nat, f));
    }
}

/// The `use` paths in the subtree of a node, sorted, each once.
fn collect_imports(n: &SyntaxNode) -> (r: Vec<String>)
    ensures
        strings_view(r@) == sorted_elements(imports_in(n.source(), n.path())),
{
    let mut acc: Vec<String> = Vec::new();
    assert(strings_view(acc@) =~= Seq::<Seq<char>>::empty());
    assert(Seq::<Seq<char>>::empty().to_set() =~= Set::<Seq<char>>::empty());
    gather_imports(n, &mut acc);
    assert(strings_view(acc@).to_set() =~= imports_in(n.source(), n.path()));
    proof {
        lemma_sorted_elements(strings_view(acc@));
    }
    acc
}

// ---------------------------------------------------------------------------
// Walking the declarations
// ---------------------------------------------------------------------------
fn make_symbol(
    n: &SyntaxNode,
    name: String,
    kind: SymbolKind,
    file_path: &str,
    imports: &Vec<String>,
    path_stack: &Vec<String>,
    calls: Vec<String>,
) -> (s: CodeSymbol)
    ensures
        symbol_model(s) == symbol_at(
            n.source(),
            n.path(),
            name@,
            kind,
            file_path@,
            strings_view(imports@),
            strings_view(path_stack@),
            strings_view(calls@),
        ),
        s.start_line <= s.end_line,
{
    let (start, end) = line_range(n);
    let qname = qualified(path_stack, name.as_str());
    let lang = "rust";
    CodeSymbol {
        name,
        qualified_name: qname,
        kind,
        file_path: to_owned_string(file_path),
        start_line: start,
        end_line: end,
        body: node_text(n),
        calls,
        imports: copy_strings(imports),
        language: to_owned_string(lang),
    }
}

/// The symbol of a function, if it has a name.
fn function_symbol(
    n: &SyntaxNode,
    file_path: &str,
    imports: &Vec<String>,
    path_stack: &Vec<String>,
) -> (r: Option<CodeSymbol>)
    ensures
        match r {
            Some(s) => field_text_of(n.source(), n.path(), "name"@) matches Some(name)
                && symbol_model(s) == symbol_at(
                n.source(),
                n.path(),
                name,
                SymbolKind::Function,
                file_path@,
                strings_view(imports@),
                strings_view(path_stack@),
                sorted_elements(calls_in(n.source(), n.path())),
            ),
            None => field_text_of(n.source(), n.path(), "name"@) is None,
        },
        r matches Some(s) ==> s.start_line <= s.end_line,
{
    let name = match field_text(n, "name") {
        Some(t) => t,
        None => return None,
    };
    let calls = collect_calls(n);
    Some(make_symbol(n, name, SymbolKind::Function, file_path, imports, path_stack, calls))
}

/// The symbol of a struct, trait or enum, if it has a name.
fn simple_symbol(
    n: &SyntaxNode,
    file_path: &str,
    kind: SymbolKind,
    imports: &Vec<String>,
    path_stack: &Vec<String>,
) -> (r: Option<CodeSymbol>)
    ensures
        match r {
            Some(s) => named_symbol(
                n.source(),
                n.path(),
                kind,
                file_path@,
                strings_view(imports@),
                strings_view(path_stack@),
            ) == seq![symbol_model(s)],
            None => named_symbol(
                n.source(),
                n.path(),
                kind,
                file_path@,
                strings_view(imports@),
                strings_view(path_stack@),
            ) == Seq::<SymbolModel>::empty(),
        },
        r matches Some(s) ==> s.start_line <= s.end_line,
{
    let name = match field_text(n, "name") {
        Some(t) => t,
        None => return None,
    };
    let calls: Vec<String> = Vec::new();
    let s = make_symbol(n, name, kind, file_path, imports, path_stack, calls);
    assert(strings_view(calls@) =~= Seq::<Seq<char>>::empty());
    Some(s)
}

fn push_all(out: &mut Vec<CodeSymbol>, o: Option<CodeSymbol>)
    requires
        lines_ordered(old(out)@),
        o matches Some(s) ==> s.start_line <= s.end_line,
    ensures
        lines_ordered(final(out)@),
        symbols_view(final(out)@) == symbols_view(old(out)@) + match o {
            Some(s) => seq![symbol_model(s)],
            None => Seq::<SymbolModel>::empty(),
        },
{
    match o {
        Some(s) => {
            out.push(s);
            assert(symbols_view(out@) =~= symbols_view(old(out)@) + seq![symbol_model(s)]);
        },
        None => {
            assert(symbols_view(out@) =~= symbols_view(old(out)@) + Seq::<SymbolModel>::empty());
        },
    }
}

fn push_symbol(out: &mut Vec<CodeSymbol>, s: CodeSymbol)
    requires
        lines_ordered(old(out)@),
        s.start_line <= s.end_line,
    ensures
        lines_ordered(final(out)@),
        symbols_view(final(out)@) == symbols_view(old(out)@).push(symbol_model(s)),
{
    out.push(s);
    assert(symbols_view(out@) =~= symbols_view(old(out)@).push(symbol_model(s)));
}

fn push_name(stack: &Vec<String>, name: &str) -> (r: Vec<String>)
    ensures
        strings_view(r@) == strings_view(stack@).push(name@),
{
    let mut r = copy_strings(stack);
    r.push(to_owned_string(name));
    assert(strings_view(r@) =~= strings_view(stack@).push(name@));
    r
}

/// Appends the symbols of the items directly under `n` (a source file or a
/// declaration list) to `out`.
fn walk_top_level(
    n: &SyntaxNode,
    file_path: &str,
    imports: &Vec<String>,
    out: &mut Vec<CodeSymbol>,
    path_stack: &Vec<String>,
)
    requires
        lines_ordered(old(out)@),
    ensures
        lines_ordered(final(out)@),
        forall|f: nat|
            f >= ts_descendants(n.source(), n.path()) ==> symbols_view(final(out)@)
                == symbols_view(old(out)@) + #[trigger] walk_fuel(
                n.source(),
                n.path(),
                file_path@,
                strings_view(imports@),
                strings_view(path_stack@),
                f,
            ),
    decreases ts_descendants(n.source(), n.path()),
{
    let ghost src = n.source();
    let ghost p = n.path();
    let ghost file = file_path@;
    let ghost imps = strings_view(imports@);
    let ghost stack = strings_view(path_stack@);
    let ghost o0 = symbols_view(out@);
    let count = named_child_count(n);
    let mut i: usize = 0;
    assert(o0 + Seq::<SymbolModel>::empty() =~= o0);
    while i < count
        invariant
            i <= count,
            count == ts_named_count(src, p),
            src == n.source(),
            p == n.path(),
            file == file_path@,
            imps == strings_view(imports@),
            stack == strings_view(path_stack@),
            lines_ordered(out@),
            forall|f: nat|
                f >= ts_descendants(src, p) ==> symbols_view(out@) == o0
                    + #[trigger] walk_children(src, p, i as nat, file, imps, stack, f),
        decreases count - i,
    {
        let child = named_child(n, i).unwrap();
        let ghost c = child.path();
        let ghost before = symbols_view(out@);
        let k = node_kind(&child);
        if str_eq(k, "function_item") {
            let s = function_symbol(&child, file_path, imports, path_stack);
            push_all(out, s);
        } else if str_eq(k, "struct_item") {
            let s = simple_symbol(&child, file_path, SymbolKind::Struct, imports, path_stack);
            push_all(out, s);
        } else if str_eq(k, "trait_item") {
            let s = simple_symbol(&child, file_path, SymbolKind::Trait, imports, path_stack);
            push_all(out, s);
        } else if str_eq(k, "enum_item") {
            let s = simple_symbol(&child, file_path, SymbolKind::Enum, imports, path_stack);
            push_all(out, s);
        } else if str_eq(k, "impl_item") {
            let ty_name = match field_text(&child, "type") {
                Some(t) => t,
                None => to_owned_string("anonymous"),
            };
            let trait_name = field_text(&child, "trait");
            let mut label = to_owned_string("impl ");
            match trait_name {
                Some(t) => {
                    label.append(t.as_str());
                    label.append(" for ");
                    label.append(ty_name.as_str());
                },
                None => {
                    label.append(ty_name.as_str());
                },
            }
            assert(label@ == impl_label(src, c));
            let calls = collect_calls(&child);
            let sym = make_symbol(
                &child,
                to_owned_string(label.as_str()),
                SymbolKind::Impl,
                file_path,
                imports,
                path_stack,
                calls,
            );
            push_symbol(out, sym);
            let child_stack = push_name(path_stack, label.as_str());
            let ghost mid = symbols_view(out@);
            match child_by_field(&child, "body") {
                Some(decl_list) => {
                    walk_top_level(&decl_list, file_path, imports, out, &child_stack);
                },
                None => {},
            }
            assert forall|f: nat| f >= ts_descendants(src, c) implies symbols_view(out@) == before
                + #[trigger] item_symbols(src, c, file, imps, stack, f) by {
                if ts_has_field(src, c, "body"@) {
                    assert(symbols_view(out@) == mid + walk_fuel(
                        src,
                        field_path(c, "body"@),
                        file,
                        imps,
                        stack.push(label@),
                        (f - 1) as nat,
                    ));
                }
                assert(symbols_view(out@) =~= before + item_symbols(src, c, file, imps, stack, f));
            }
        } else if str_eq(k, "mod_item") {
            let name = match field_text(&child, "name") {
                Some(t) => t,
                None => String::new(),
            };
            let calls: Vec<String> = Vec::new();
            assert(strings_view(calls@) =~= Seq::<Seq<char>>::empty());
            let sym = make_symbol(
                &child,
                to_owned_string(name.as_str()),
                SymbolKind::Module,
                file_path,
                imports,
                path_stack,
                calls,
            );
            push_symbol(out, sym);
            let child_stack = push_name(path_stack, name.as_str());
            let ghost mid = symbols_view(out@);
            match child_by_field(&child, "body") {
                Some(decl_list) => {
                    walk_top_level(&decl_list, file_path, imports, out, &child_stack);
                },
                None => {},
            }
            assert forall|f: nat| f >= ts_descendants(src, c) implies symbols_view(out@) == before
                + #[trigger] item_symbols(src, c, file, imps, stack, f) by {
                if ts_has_field(src, c, "body"@) {
                    assert(symbols_view(out@) == mid + walk_fuel(
                        src,
                        field_path(c, "body"@),
                        file,
                        imps,
                        stack.push(name@),
                        (f - 1) as nat,
                    ));
                }
                assert(symbols_view(out@) =~= before + item_symbols(src, c, file, imps, stack, f));
            }
        }
        let ghost k = i as nat;
        i += 1;
        assert forall|f: nat| f >= ts_descendants(src, p) implies symbols_view(out@) == o0
            + #[trigger] walk_children(src, p, i as nat, file, imps, stack, f) by {
            assert(before == o0 + walk_children(src, p, k, file, imps, stack, f));
            assert(symbols_view(out@) == before + item_symbols(src, c, file, imps, stack, f));
            assert(walk_children(src, p, i as nat, file, imps, stack, f) == walk_children(
                src,
                p,
                k,
                file,
                imps,
                stack,
                f,
            ) + item_symbols(src, c, file, imps, stack, f));
            assert(symbols_view(out@) =~= o0 + walk_children(src, p, i as nat, file, imps, stack, f));
        }
    }
    assert forall|f: nat| f >= ts_descendants(src, p) implies symbols_view(out@) == o0
        + #[trigger] walk_fuel(src, p, file, imps, stack, f) by {
        assert(symbols_view(out@) == o0 + walk_children(src, p, i as nat, file, imps, stack, f));
    }
}

/// The symbols of a parsed Rust source file.
pub fn symbols_of_tree(t: &SyntaxTree, file_path: &str) -> (r: Vec<CodeSymbol>)
    ensures
        symbols_view(r@) == rust_symbols(t.source(), file_path@),
        lines_ordered(r@),
        all_made_from_nodes(t.source(), symbols_view(r@)),
{
    proof {
        lemma_symbols_made_from_nodes(t.source(), file_path@);
    }
    let root = root_node(t);
    let imports = collect_imports(&root);
    let mut out: Vec<CodeSymbol> = Vec::new();
    let stack: Vec<String> = Vec::new();
    walk_top_level(&root, file_path, &imports, &mut out, &stack);
    assert(strings_view(stack@) =~= Seq::<Seq<char>>::empty());
    assert(symbols_view(Seq::<CodeSymbol>::empty()) =~= Seq::<SymbolModel>::empty());
    assert(symbols_view(out@) == Seq::<SymbolModel>::empty() + walk_fuel(
        t.source(),
        Seq::empty(),
        file_path@,
        file_imports(t.source()),
        Seq::empty(),
        ts_descendants(t.source(), Seq::empty()),
    ));
    assert(symbols_view(out@) =~= rust_symbols(t.source(), file_path@));
    out
}

/// Parses one Rust source text and returns its top-level symbols;
/// `file_path` is written into each symbol as given. A text the parser
/// gives no tree for has no symbols.
pub fn parse_rust(src: &str, file_path: &str) -> (r: Vec<CodeSymbol>)
    ensures
        ts_parse_ok(src@) ==> symbols_view(r@) == rust_symbols(src@, file_path@),
        !ts_parse_ok(src@) ==> r@.len() == 0,
        lines_ordered(r@),
        ts_parse_ok(src@) ==> all_made_from_nodes(src@, symbols_view(r@)),
{
    match parse_rust_tree(src) {
        Some(t) => symbols_of_tree(&t, file_path),
        None => Vec::new(),
    }
}

} // verus!

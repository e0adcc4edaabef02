//! The vocabulary of knowledge items: their kinds, scopes, lifecycle and
//! provenance, the relation type, the error type, and the claim keys by
//! which conflicting items are grouped.
use vstd::prelude::*;
use crate::clock::Timestamp;
use crate::text::{
    char_vec, chars_eq_str, is_ascii_alnum, is_ascii_alphanumeric, is_ascii_digit,
    lemma_normalized_plain, lower_char, normalize, normalized, slice_chars, string_from_chars,
    to_ascii_lower,
};

verus! {

/// Categories of stored knowledge. Drives retrieval filtering and how a
/// fact should be used in a context bundle.
#[derive(Debug, Clone, Copy, PartialEq, Eq, Structural, Hash)]
pub enum KnowledgeType {
    Fact,
    Preference,
    Constraint,
    Assumption,
    Decision,
    Method,
    Formula,
    Source,
    Template,
    Example,
    Task,
    Definition,
    Regulation,
    Warning,
    Relationship,
    Other,
}

impl KnowledgeType {
    /// The name under which the value is written in `data-*` attributes
    /// and stored in the index.
    pub open spec fn name(self) -> Seq<char> {
        match self {
            KnowledgeType::Fact => "fact"@,
            KnowledgeType::Preference => "preference"@,
            KnowledgeType::Constraint => "constraint"@,
            KnowledgeType::Assumption => "assumption"@,
            KnowledgeType::Decision => "decision"@,
            KnowledgeType::Method => "method"@,
            KnowledgeType::Formula => "formula"@,
            KnowledgeType::Source => "source"@,
            KnowledgeType::Template => "template"@,
            KnowledgeType::Example => "example"@,
            KnowledgeType::Task => "task"@,
            KnowledgeType::Definition => "definition"@,
            KnowledgeType::Regulation => "regulation"@,
            KnowledgeType::Warning => "warning"@,
            KnowledgeType::Relationship => "relationship"@,
            KnowledgeType::Other => "other"@,
        }
    }

    /// The value a normalized (trimmed, lower-cased) name stands for;
    /// anything unknown reads as `Other`.
    pub open spec fn from_name(n: Seq<char>) -> KnowledgeType {
        if n == "fact"@ {
            KnowledgeType::Fact
        } else if n == "preference"@ {
            KnowledgeType::Preference
        } else if n == "constraint"@ {
            KnowledgeType::Constraint
        } else if n == "assumption"@ {
            KnowledgeType::Assumption
        } else if n == "decision"@ {
            KnowledgeType::Decision
        } else if n == "method"@ {
            KnowledgeType::Method
        } else if n == "formula"@ {
            KnowledgeType::Formula
        } else if n == "source"@ {
            KnowledgeType::Source
        } else if n == "template"@ {
            KnowledgeType::Template
        } else if n == "example"@ {
            KnowledgeType::Example
        } else if n == "task"@ {
            KnowledgeType::Task
        } else if n == "definition"@ {
            KnowledgeType::Definition
        } else if n == "regulation"@ {
            KnowledgeType::Regulation
        } else if n == "warning"@ {
            KnowledgeType::Warning
        } else if n == "relationship"@ {
            KnowledgeType::Relationship
        } else {
            KnowledgeType::Other
        }
    }

    pub fn as_str(&self) -> (r: &'static str)
        ensures
            r@ == self.name(),
    {
        match self {
            KnowledgeType::Fact => "fact",
            KnowledgeType::Preference => "preference",
            KnowledgeType::Constraint => "constraint",
            KnowledgeType::Assumption => "assumption",
            KnowledgeType::Decision => "decision",
            KnowledgeType::Method => "method",
            KnowledgeType::Formula => "formula",
            KnowledgeType::Source => "source",
            KnowledgeType::Template => "template",
            KnowledgeType::Example => "example",
            KnowledgeType::Task => "task",
            KnowledgeType::Definition => "definition",
            KnowledgeType::Regulation => "regulation",
            KnowledgeType::Warning => "warning",
            KnowledgeType::Relationship => "relationship",
            KnowledgeType::Other => "other",
        }
    }

    /// Reads a name case-insensitively, ignoring surrounding whitespace.
    pub fn parse(s: &str) -> (r: KnowledgeType)
        ensures
            r == KnowledgeType::from_name(normalized(s@)),
    {
        let n = normalize(s);
        if chars_eq_str(&n, "fact") {
            KnowledgeType::Fact
        } else if chars_eq_str(&n, "preference") {
            KnowledgeType::Preference
        } else if chars_eq_str(&n, "constraint") {
            KnowledgeType::Constraint
        } else if chars_eq_str(&n, "assumption") {
            KnowledgeType::Assumption
        } else if chars_eq_str(&n, "decision") {
            KnowledgeType::Decision
        } else if chars_eq_str(&n, "method") {
            KnowledgeType::Method
        } else if chars_eq_str(&n, "formula") {
            KnowledgeType::Formula
        } else if chars_eq_str(&n, "source") {
            KnowledgeType::Source
        } else if chars_eq_str(&n, "template") {
            KnowledgeType::Template
        } else if chars_eq_str(&n, "example") {
            KnowledgeType::Example
        } else if chars_eq_str(&n, "task") {
            KnowledgeType::Task
        } else if chars_eq_str(&n, "definition") {
            KnowledgeType::Definition
        } else if chars_eq_str(&n, "regulation") {
            KnowledgeType::Regulation
        } else if chars_eq_str(&n, "warning") {
            KnowledgeType::Warning
        } else if chars_eq_str(&n, "relationship") {
            KnowledgeType::Relationship
        } else {
            KnowledgeType::Other
        }
    }
}

/// Writing a `KnowledgeType` and reading the name back gives the same value.
pub proof fn lemma_knowledge_type_round_trip(v: KnowledgeType)
    ensures
        KnowledgeType::from_name(normalized(v.name())) == v,
{
    reveal_strlit("fact");
    reveal_strlit("preference");
    reveal_strlit("constraint");
    reveal_strlit("assumption");
    reveal_strlit("decision");
    reveal_strlit("method");
    reveal_strlit("formula");
    reveal_strlit("source");
    reveal_strlit("template");
    reveal_strlit("example");
    reveal_strlit("task");
    reveal_strlit("definition");
    reveal_strlit("regulation");
    reveal_strlit("warning");
    reveal_strlit("relationship");
    reveal_strlit("other");
    match v {
        KnowledgeType::Fact => {
            lemma_normalized_plain("fact"@);
        },
        KnowledgeType::Preference => {
            lemma_normalized_plain("preference"@);
        },
        KnowledgeType::Constraint => {
            lemma_normalized_plain("constraint"@);
        },
        KnowledgeType::Assumption => {
            lemma_normalized_plain("assumption"@);
        },
        KnowledgeType::Decision => {
            lemma_normalized_plain("decision"@);
        },
        KnowledgeType::Method => {
            lemma_normalized_plain("method"@);
        },
        KnowledgeType::Formula => {
            lemma_normalized_plain("formula"@);
        },
        KnowledgeType::Source => {
            lemma_normalized_plain("source"@);
        },
        KnowledgeType::Template => {
            lemma_normalized_plain("template"@);
        },
        KnowledgeType::Example => {
            lemma_normalized_plain("example"@);
        },
        KnowledgeType::Task => {
            lemma_normalized_plain("task"@);
        },
        KnowledgeType::Definition => {
            lemma_normalized_plain("definition"@);
        },
        KnowledgeType::Regulation => {
            lemma_normalized_plain("regulation"@);
        },
        KnowledgeType::Warning => {
            lemma_normalized_plain("warning"@);
        },
        KnowledgeType::Relationship => {
            lemma_normalized_plain("relationship"@);
        },
        KnowledgeType::Other => {
            lemma_normalized_plain("other"@);
        },
    }
}

/// Visibility / ownership boundary for a knowledge item.
#[derive(Debug, Clone, Copy, PartialEq, Eq, Structural, Hash)]
pub enum Scope {
    Session,
    User,
    Project,
    Workspace,
    Organization,
    Global,
}

impl Scope {
    /// The name under which the value is written in `data-*` attributes
    /// and stored in the index.
    pub open spec fn name(self) -> Seq<char> {
        match self {
            Scope::Session => "session"@,
            Scope::User => "user"@,
            Scope::Project => "project"@,
            Scope::Workspace => "workspace"@,
            Scope::Organization => "organization"@,
            Scope::Global => "global"@,
        }
    }

    /// The value a normalized (trimmed, lower-cased) name stands for;
    /// anything unknown reads as `User`.
    pub open spec fn from_name(n: Seq<char>) -> Scope {
        if n == "session"@ {
            Scope::Session
        } else if n == "project"@ {
            Scope::Project
        } else if n == "workspace"@ {
            Scope::Workspace
        } else if n == "organization"@ || n == "org"@ {
            Scope::Organization
        } else if n == "global"@ {
            Scope::Global
        } else {
            Scope::User
        }
    }

    pub fn as_str(&self) -> (r: &'static str)
        ensures
            r@ == self.name(),
    {
        match self {
            Scope::Session => "session",
            Scope::User => "user",
            Scope::Project => "project",
            Scope::Workspace => "workspace",
            Scope::Organization => "organization",
            Scope::Global => "global",
        }
    }

    /// Reads a name case-insensitively, ignoring surrounding whitespace.
    pub fn parse(s: &str) -> (r: Scope)
        ensures
            r == Scope::from_name(normalized(s@)),
    {
        let n = normalize(s);
        if chars_eq_str(&n, "session") {
            Scope::Session
        } else if chars_eq_str(&n, "project") {
            Scope::Project
        } else if chars_eq_str(&n, "workspace") {
            Scope::Workspace
        } else if chars_eq_str(&n, "organization") || chars_eq_str(&n, "org") {
            Scope::Organization
        } else if chars_eq_str(&n, "global") {
            Scope::Global
        } else {
            Scope::User
        }
    }
}

/// Writing a `Scope` and reading the name back gives the same value.
pub proof fn lemma_scope_round_trip(v: Scope)
    ensures
        Scope::from_name(normalized(v.name())) == v,
{
    reveal_strlit("session");
    reveal_strlit("user");
    reveal_strlit("project");
    reveal_strlit("workspace");
    reveal_strlit("organization");
    reveal_strlit("global");
    reveal_strlit("org");
    match v {
        Scope::Session => {
            lemma_normalized_plain("session"@);
        },
        Scope::User => {
            lemma_normalized_plain("user"@);
        },
        Scope::Project => {
            lemma_normalized_plain("project"@);
        },
        Scope::Workspace => {
            lemma_normalized_plain("workspace"@);
        },
        Scope::Organization => {
            lemma_normalized_plain("organization"@);
        },
        Scope::Global => {
            lemma_normalized_plain("global"@);
        },
    }
}

/// Lifecycle state of a knowledge item.
#[derive(Debug, Clone, Copy, PartialEq, Eq, Structural, Hash)]
pub enum Status {
    Active,
    Stale,
    Superseded,
    Deleted,
}

impl Status {
    /// The name under which the value is written in `data-*` attributes
    /// and stored in the index.
    pub open spec fn name(self) -> Seq<char> {
        match self {
            Status::Active => "active"@,
            Status::Stale => "stale"@,
            Status::Superseded => "superseded"@,
            Status::Deleted => "deleted"@,
        }
    }

    /// The value a normalized (trimmed, lower-cased) name stands for;
    /// anything unknown reads as `Active`.
    pub open spec fn from_name(n: Seq<char>) -> Status {
        if n == "stale"@ {
            Status::Stale
        } else if n == "superseded"@ {
            Status::Superseded
        } else if n == "deleted"@ {
            Status::Deleted
        } else {
            Status::Active
        }
    }

    pub fn as_str(&self) -> (r: &'static str)
        ensures
            r@ == self.name(),
    {
        match self {
            Status::Active => "active",
            Status::Stale => "stale",
            Status::Superseded => "superseded",
            Status::Deleted => "deleted",
        }
    }

    /// Reads a name case-insensitively, ignoring surrounding whitespace.
    pub fn parse(s: &str) -> (r: Status)
        ensures
            r == Status::from_name(normalized(s@)),
    {
        let n = normalize(s);
        if chars_eq_str(&n, "stale") {
            Status::Stale
        } else if chars_eq_str(&n, "superseded") {
            Status::Superseded
        } else if chars_eq_str(&n, "deleted") {
            Status::Deleted
        } else {
            Status::Active
        }
    }
}

/// Writing a `Status` and reading the name back gives the same value.
pub proof fn lemma_status_round_trip(v: Status)
    ensures
        Status::from_name(normalized(v.name())) == v,
{
    reveal_strlit("active");
    reveal_strlit("stale");
    reveal_strlit("superseded");
    reveal_strlit("deleted");
    match v {
        Status::Active => {
            lemma_normalized_plain("active"@);
        },
        Status::Stale => {
            lemma_normalized_plain("stale"@);
        },
        Status::Superseded => {
            lemma_normalized_plain("superseded"@);
        },
        Status::Deleted => {
            lemma_normalized_plain("deleted"@);
        },
    }
}

/// How long a knowledge item is expected to stay true.
#[derive(Debug, Clone, Copy, PartialEq, Eq, Structural, Hash)]
pub enum Stability {
    Temporary,
    ShortTerm,
    MediumTerm,
    LongTerm,
    Permanent,
}

impl Stability {
    /// The name under which the value is written in `data-*` attributes
    /// and stored in the index.
    pub open spec fn name(self) -> Seq<char> {
        match self {
            Stability::Temporary => "temporary"@,
            Stability::ShortTerm => "short-term"@,
            Stability::MediumTerm => "medium-term"@,
            Stability::LongTerm => "long-term"@,
            Stability::Permanent => "permanent"@,
        }
    }

    /// The value a normalized (trimmed, lower-cased) name stands for;
    /// anything unknown reads as `MediumTerm`.
    pub open spec fn from_name(n: Seq<char>) -> Stability {
        if n == "temporary"@ {
            Stability::Temporary
        } else if n == "short-term"@ {
            Stability::ShortTerm
        } else if n == "long-term"@ {
            Stability::LongTerm
        } else if n == "permanent"@ {
            Stability::Permanent
        } else {
            Stability::MediumTerm
        }
    }

    pub fn as_str(&self) -> (r: &'static str)
        ensures
            r@ == self.name(),
    {
        match self {
            Stability::Temporary => "temporary",
            Stability::ShortTerm => "short-term",
            Stability::MediumTerm => "medium-term",
            Stability::LongTerm => "long-term",
            Stability::Permanent => "permanent",
        }
    }

    /// Reads a name case-insensitively, ignoring surrounding whitespace.
    pub fn parse(s: &str) -> (r: Stability)
        ensures
            r == Stability::from_name(normalized(s@)),
    {
        let n = normalize(s);
        if chars_eq_str(&n, "temporary") {
            Stability::Temporary
        } else if chars_eq_str(&n, "short-term") {
            Stability::ShortTerm
        } else if chars_eq_str(&n, "long-term") {
            Stability::LongTerm
        } else if chars_eq_str(&n, "permanent") {
            Stability::Permanent
        } else {
            Stability::MediumTerm
        }
    }
}

/// Writing a `Stability` and reading the name back gives the same value.
pub proof fn lemma_stability_round_trip(v: Stability)
    ensures
        Stability::from_name(normalized(v.name())) == v,
{
    reveal_strlit("temporary");
    reveal_strlit("short-term");
    reveal_strlit("medium-term");
    reveal_strlit("long-term");
    reveal_strlit("permanent");
    match v {
        Stability::Temporary => {
            lemma_normalized_plain("temporary"@);
        },
        Stability::ShortTerm => {
            lemma_normalized_plain("short-term"@);
        },
        Stability::MediumTerm => {
            lemma_normalized_plain("medium-term"@);
        },
        Stability::LongTerm => {
            lemma_normalized_plain("long-term"@);
        },
        Stability::Permanent => {
            lemma_normalized_plain("permanent"@);
        },
    }
}

/// Where a knowledge item came from.
#[derive(Debug, Clone, Copy, PartialEq, Eq, Structural, Hash)]
pub enum SourceType {
    User,
    Document,
    Agent,
    Imported,
    Cited,
    /// A symbol taken from source code by the code indexer.
    CodeImport,
}

impl SourceType {
    /// The name under which the value is written in `data-*` attributes
    /// and stored in the index.
    pub open spec fn name(self) -> Seq<char> {
        match self {
            SourceType::User => "user"@,
            SourceType::Document => "document"@,
            SourceType::Agent => "agent"@,
            SourceType::Imported => "imported"@,
            SourceType::Cited => "cited"@,
            SourceType::CodeImport => "code-import"@,
        }
    }

    /// The value a normalized (trimmed, lower-cased) name stands for;
    /// anything unknown reads as `User`.
    pub open spec fn from_name(n: Seq<char>) -> SourceType {
        if n == "document"@ || n == "doc"@ {
            SourceType::Document
        } else if n == "agent"@ || n == "ai"@ {
            SourceType::Agent
        } else if n == "imported"@ || n == "import"@ {
            SourceType::Imported
        } else if n == "cited"@ || n == "citation"@ || n == "cited-source"@ {
            SourceType::Cited
        } else if n == "code-import"@ {
            SourceType::CodeImport
        } else {
            SourceType::User
        }
    }

    pub fn as_str(&self) -> (r: &'static str)
        ensures
            r@ == self.name(),
    {
        match self {
            SourceType::User => "user",
            SourceType::Document => "document",
            SourceType::Agent => "agent",
            SourceType::Imported => "imported",
            SourceType::Cited => "cited",
            SourceType::CodeImport => "code-import",
        }
    }

    /// Reads a name case-insensitively, ignoring surrounding whitespace.
    pub fn parse(s: &str) -> (r: SourceType)
        ensures
            r == SourceType::from_name(normalized(s@)),
    {
        let n = normalize(s);
        if chars_eq_str(&n, "document") || chars_eq_str(&n, "doc") {
            SourceType::Document
        } else if chars_eq_str(&n, "agent") || chars_eq_str(&n, "ai") {
            SourceType::Agent
        } else if chars_eq_str(&n, "imported") || chars_eq_str(&n, "import") {
            SourceType::Imported
        } else if chars_eq_str(&n, "cited") || chars_eq_str(&n, "citation") || chars_eq_str(&n, "cited-source") {
            SourceType::Cited
        } else if chars_eq_str(&n, "code-import") {
            SourceType::CodeImport
        } else {
            SourceType::User
        }
    }
}

/// Writing a `SourceType` and reading the name back gives the same value.
pub proof fn lemma_source_type_round_trip(v: SourceType)
    ensures
        SourceType::from_name(normalized(v.name())) == v,
{
    reveal_strlit("user");
    reveal_strlit("document");
    reveal_strlit("agent");
    reveal_strlit("imported");
    reveal_strlit("cited");
    reveal_strlit("doc");
    reveal_strlit("ai");
    reveal_strlit("import");
    reveal_strlit("citation");
    reveal_strlit("cited-source");
    reveal_strlit("code-import");
    match v {
        SourceType::User => {
            lemma_normalized_plain("user"@);
        },
        SourceType::Document => {
            lemma_normalized_plain("document"@);
        },
        SourceType::Agent => {
            lemma_normalized_plain("agent"@);
        },
        SourceType::Imported => {
            lemma_normalized_plain("imported"@);
        },
        SourceType::Cited => {
            lemma_normalized_plain("cited"@);
        },
        SourceType::CodeImport => {
            lemma_normalized_plain("code-import"@);
        },
    }
}

/// A typed inter-item relationship, written as
/// `<span data-rel data-target>` inside a section.
#[derive(Debug)]
pub struct Relation {
    /// Relationship kind: `supersedes`, `cites`, `contradicts`, `depends-on`, ...
    pub rel: String,
    /// Id of the related item. It may name an item not loaded yet.
    pub target: String,
}

impl Clone for Relation {
    fn clone(&self) -> (r: Self)
        ensures
            r == *self,
    {
        Relation { rel: self.rel.clone(), target: self.target.clone() }
    }
}

/// One knowledge object, with the metadata its `<section data-*>` element
/// carries. Confidence is kept as the decimal text written in
/// `data-confidence` (empty when absent); turning it into a number, and
/// weighing it, is left to the caller.
#[derive(Debug)]
pub struct KnowledgeRecord {
    pub id: String,
    pub knowledge_type: KnowledgeType,
    pub scope: Scope,
    pub confidence: String,
    pub source_type: SourceType,
    pub status: Status,
    pub stability: Stability,
    pub created: Timestamp,
    pub modified: Timestamp,
    pub valid_from: Option<Timestamp>,
    pub valid_until: Option<Timestamp>,
    pub domain: Option<String>,
    pub tags: Vec<String>,
    pub title: String,
    pub body_text: String,
    pub body_html: String,
    pub relations: Vec<Relation>,
    /// Optional explicit grouping key for conflict detection.
    pub claim_key: Option<String>,
    /// Project-relative path of the source file a code item was taken from.
    pub defined_path: Option<String>,
    pub defined_start_line: Option<usize>,
    pub defined_end_line: Option<usize>,
}

impl KnowledgeRecord {
    /// The conflict-detection grouping key of this item.
    pub open spec fn claim_key_spec(&self) -> Seq<char> {
        claim_key_of(opt_view(self.claim_key), self.title@, opt_view(self.domain))
    }

    /// Compute the conflict-detection grouping key.
    pub fn derived_claim_key(&self) -> (r: String)
        ensures
            r@ == self.claim_key_spec(),
    {
        derived_claim_key(&self.claim_key, self.title.as_str(), &self.domain)
    }
}

/// Errors of the store and the parsers.
#[derive(Debug)]
pub enum Error {
    NotFound(String),
    Invalid { field: String, value: String },
    Parse(String),
    /// A failed read or write, with the system's message.
    Io(String),
    Other(String),
}

// ---------------------------------------------------------------------------
// Slugs and claim keys
// ---------------------------------------------------------------------------
/// Slug scanning state after a prefix: the slug so far and whether the last
/// character written was a dash (true at the start, so no leading dash).
pub open spec fn slug_state(s: Seq<char>) -> (Seq<char>, bool)
    decreases s.len(),
{
    if s.len() == 0 {
        (Seq::empty(), true)
    } else {
        let (out, prev_dash) = slug_state(s.drop_last());
        let c = s.last();
        if is_ascii_alnum(c) {
            (out.push(lower_char(c)), false)
        } else if !prev_dash {
            (out.push('-'), true)
        } else {
            (out, prev_dash)
        }
    }
}

pub open spec fn lead_dashes(s: Seq<char>) -> nat
    decreases s.len(),
{
    if s.len() > 0 && s[0] == '-' {
        1 + lead_dashes(s.drop_first())
    } else {
        0
    }
}

pub open spec fn trail_dashes(s: Seq<char>) -> nat
    decreases s.len(),
{
    if s.len() > 0 && s.last() == '-' {
        1 + trail_dashes(s.drop_last())
    } else {
        0
    }
}

/// `trim_matches('-')`.
pub open spec fn trim_dashes(s: Seq<char>) -> Seq<char> {
    let t = s.subrange(lead_dashes(s) as int, s.len() as int);
    t.subrange(0, t.len() - trail_dashes(t))
}

/// Lightweight slug: ASCII letters and digits lower-cased, every run of
/// other characters collapsed to one dash, dashes trimmed from both ends.
pub open spec fn slug(s: Seq<char>) -> Seq<char> {
    trim_dashes(slug_state(s).0)
}

/// The shape every slug has: lower-case ASCII letters, digits and single
/// dashes, with no dash at either end.
pub open spec fn is_slug(t: Seq<char>) -> bool {
    &&& forall|i: int|
        0 <= i < t.len() ==> (('a' <= #[trigger] t[i] && t[i] <= 'z') || is_ascii_digit(t[i])
            || t[i] == '-')
    &&& forall|i: int| 0 <= i < t.len() - 1 ==> !(#[trigger] t[i] == '-' && t[i + 1] == '-')
    &&& t.len() > 0 ==> t[0] != '-' && t.last() != '-'
}

proof fn lemma_lead_dashes(s: Seq<char>)
    ensures
        lead_dashes(s) <= s.len(),
        forall|i: int| 0 <= i < lead_dashes(s) ==> #[trigger] s[i] == '-',
        lead_dashes(s) < s.len() ==> s[lead_dashes(s) as int] != '-',
    decreases s.len(),
{
    if s.len() > 0 && s[0] == '-' {
        lemma_lead_dashes(s.drop_first());
        assert forall|i: int| 0 <= i < lead_dashes(s) implies #[trigger] s[i] == '-' by {
            if i > 0 {
                assert(s[i] == s.drop_first()[i - 1]);
            }
        }
    }
}

proof fn lemma_trail_dashes(s: Seq<char>)
    ensures
        trail_dashes(s) <= s.len(),
        forall|i: int| s.len() - trail_dashes(s) <= i < s.len() ==> #[trigger] s[i] == '-',
        trail_dashes(s) < s.len() ==> s[s.len() - trail_dashes(s) - 1] != '-',
    decreases s.len(),
{
    if s.len() > 0 && s.last() == '-' {
        lemma_trail_dashes(s.drop_last());
        assert forall|i: int| s.len() - trail_dashes(s) <= i < s.len() implies #[trigger] s[i]
            == '-' by {
            if i < s.len() - 1 {
                assert(s[i] == s.drop_last()[i]);
            }
        }
    }
}

/// The raw slug state: allowed characters only, no double dash, no leading
/// dash, and the flag says whether it ends in a dash.
proof fn lemma_slug_state(s: Seq<char>)
    ensures
        ({
            let (out, prev) = slug_state(s);
            &&& forall|i: int|
                0 <= i < out.len() ==> (('a' <= #[trigger] out[i] && out[i] <= 'z')
                    || is_ascii_digit(out[i]) || out[i] == '-')
            &&& forall|i: int|
                0 <= i < out.len() - 1 ==> !(#[trigger] out[i] == '-' && out[i + 1] == '-')
            &&& out.len() > 0 ==> out[0] != '-'
            &&& prev == (out.len() == 0 || out.last() == '-')
        }),
    decreases s.len(),
{
    if s.len() > 0 {
        lemma_slug_state(s.drop_last());
        let (out0, prev0) = slug_state(s.drop_last());
        let (out, prev) = slug_state(s);
        assert forall|i: int| 0 <= i < out0.len() implies #[trigger] out[i] == out0[i] by {}
    }
}

proof fn lemma_trim_dashes_slug(s: Seq<char>)
    requires
        forall|i: int|
            0 <= i < s.len() ==> (('a' <= #[trigger] s[i] && s[i] <= 'z') || is_ascii_digit(s[i])
                || s[i] == '-'),
        forall|i: int| 0 <= i < s.len() - 1 ==> !(#[trigger] s[i] == '-' && s[i + 1] == '-'),
    ensures
        is_slug(trim_dashes(s)),
{
    lemma_lead_dashes(s);
    let t = s.subrange(lead_dashes(s) as int, s.len() as int);
    lemma_trail_dashes(t);
    let r = trim_dashes(s);
    assert(r == t.subrange(0, t.len() - trail_dashes(t)));
    assert forall|i: int| 0 <= i < r.len() implies #[trigger] r[i] == s[i + lead_dashes(s)] by {}
    assert forall|i: int| 0 <= i < r.len() - 1 implies !(#[trigger] r[i] == '-' && r[i + 1]
        == '-') by {
        assert(r[i] == s[i + lead_dashes(s)]);
        assert(r[i + 1] == s[i + 1 + lead_dashes(s)]);
    }
    if r.len() > 0 {
        assert(r[0] == t[0]);
        assert(r.last() == t[t.len() - trail_dashes(t) - 1]);
    }
}

/// Every slug has the slug shape.
pub proof fn lemma_slug_shape(s: Seq<char>)
    ensures
        is_slug(slug(s)),
{
    lemma_slug_state(s);
    lemma_trim_dashes_slug(slug_state(s).0);
}

/// A text that already has the slug shape passes through the scanner
/// unchanged.
proof fn lemma_slug_state_of_slug(t: Seq<char>, n: int)
    requires
        is_slug(t),
        0 <= n <= t.len(),
    ensures
        slug_state(t.take(n)) == (t.take(n), n == 0 || t[n - 1] == '-'),
    decreases n,
{
    if n > 0 {
        lemma_slug_state_of_slug(t, n - 1);
        assert(t.take(n).drop_last() =~= t.take(n - 1));
        assert(t.take(n) =~= t.take(n - 1).push(t[n - 1]));
        if t[n - 1] == '-' {
            assert(n - 1 > 0);
            assert(!(t[n - 2] == '-' && t[n - 1] == '-'));
        }
    }
}

/// Slugging a slug changes nothing: `slugify` is idempotent.
pub proof fn lemma_slug_idempotent(s: Seq<char>)
    ensures
        slug(slug(s)) == slug(s),
{
    let t = slug(s);
    lemma_slug_shape(s);
    lemma_slug_state_of_slug(t, t.len() as int);
    assert(t.take(t.len() as int) =~= t);
    let out = slug_state(t).0;
    assert(out == t);
    assert(lead_dashes(t) == 0);
    assert(t.subrange(0, t.len() as int) =~= t);
    assert(trail_dashes(t) == 0);
    assert(trim_dashes(t) =~= t);
}

fn count_lead_dashes(s: &Vec<char>) -> (n: usize)
    ensures
        n == lead_dashes(s@),
{
    proof {
        lemma_lead_dashes(s@);
    }
    let mut i: usize = 0;
    while i < s.len() && s[i] == '-'
        invariant
            i <= s.len(),
            i <= lead_dashes(s@),
            lead_dashes(s@) <= s.len(),
            forall|k: int| 0 <= k < lead_dashes(s@) ==> #[trigger] s@[k] == '-',
            lead_dashes(s@) < s.len() ==> s@[lead_dashes(s@) as int] != '-',
        decreases s.len() - i,
    {
        i += 1;
    }
    i
}

fn count_trail_dashes(s: &Vec<char>) -> (n: usize)
    ensures
        n == trail_dashes(s@),
{
    proof {
        lemma_trail_dashes(s@);
    }
    let mut i: usize = 0;
    while i < s.len() && s[s.len() - 1 - i] == '-'
        invariant
            i <= s.len(),
            i <= trail_dashes(s@),
            trail_dashes(s@) <= s.len(),
            forall|k: int| s.len() - trail_dashes(s@) <= k < s.len() ==> #[trigger] s@[k] == '-',
            trail_dashes(s@) < s.len() ==> s@[s.len() - trail_dashes(s@) - 1] != '-',
        decreases s.len() - i,
    {
        i += 1;
    }
    i
}

/// Lightweight slug: lowercase, alphanumerics + `-`, runs collapsed.
pub fn slugify(s: &str) -> (r: String)
    ensures
        r@ == slug(s@),
{
    let cs = char_vec(s);
    let mut out: Vec<char> = Vec::new();
    let mut prev_dash = true;
    let mut i: usize = 0;
    while i < cs.len()
        invariant
            i <= cs.len(),
            (out@, prev_dash) == slug_state(cs@.take(i as int)),
        decreases cs.len() - i,
    {
        assert(cs@.take(i + 1).drop_last() =~= cs@.take(i as int));
        let ch = cs[i];
        if is_ascii_alphanumeric(ch) {
            out.push(to_ascii_lower(ch));
            prev_dash = false;
        } else if !prev_dash {
            out.push('-');
            prev_dash = true;
        }
        i += 1;
    }
    assert(cs@.take(cs.len() as int) =~= cs@);
    let a = count_lead_dashes(&out);
    proof {
        lemma_lead_dashes(out@);
    }
    let t = slice_chars(&out, a, out.len());
    let b = count_trail_dashes(&t);
    proof {
        lemma_trail_dashes(t@);
    }
    let u = slice_chars(&t, 0, t.len() - b);
    string_from_chars(&u)
}

/// The conflict-detection grouping key of an item: its explicit claim key
/// when it has one, else the slug of its title, followed by `:` and the
/// domain when the domain is not empty.
pub open spec fn claim_key_of(
    claim_key: Option<Seq<char>>,
    title: Seq<char>,
    domain: Option<Seq<char>>,
) -> Seq<char> {
    match claim_key {
        Some(k) => k,
        None => {
            let d = match domain {
                Some(d) => d,
                None => Seq::empty(),
            };
            if d.len() == 0 {
                slug(title)
            } else {
                slug(title) + seq![':'] + d
            }
        },
    }
}

/// The view of an optional string.
pub open spec fn opt_view(o: Option<String>) -> Option<Seq<char>> {
    match o {
        Some(s) => Some(s@),
        None => None,
    }
}

/// Compute the conflict-detection grouping key.
pub fn derived_claim_key(claim_key: &Option<String>, title: &str, domain: &Option<String>) -> (r:
    String)
    ensures
        r@ == claim_key_of(opt_view(*claim_key), title@, opt_view(*domain)),
{
    match claim_key {
        Some(k) => k.clone(),
        None => {
            let mut r = slugify(title);
            match domain {
                Some(d) => {
                    if !d.as_str().is_empty() {
                        r.push(':');
                        r.append(d.as_str());
                    }
                },
                None => {},
            }
            r
        },
    }
}

} // verus!

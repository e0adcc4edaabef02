//! The review queue: proposals become items once approved. This module
//! holds the decisions: which queue entry can be approved, what item a
//! proposal describes, which vault file it goes to, and where in that file
//! its section is written.
use vstd::prelude::*;
use crate::clock::now_utc;
use crate::ids::{is_ulid_text, new_id};
use crate::schema::{
    opt_view, KnowledgeRecord, KnowledgeType, Relation, Scope, SourceType, Stability, Status,
};
use crate::store::QueueEntry;
use crate::text::{
    trim, trim_chars,
    char_vec, has_prefix, starts_with, lower_seq, lower_chars, normalized, slice_chars, squash_whitespace, squash_ws,
    str_eq, string_from_chars, strings_view, to_owned_string, trim_end, trim_end_chars,
};

verus! {

// ---------------------------------------------------------------------------
// Request and response shapes
// ---------------------------------------------------------------------------
#[derive(Debug)]
pub struct ProposeResponse {
    pub queue_id: String,
    pub status: String,
    pub target_id: Option<String>,
}

#[derive(Debug)]
pub struct QueueListParams {
    pub status: Option<String>,
}

#[derive(Debug)]
pub struct ApproveResponse {
    pub queue_id: String,
    pub item_id: String,
    pub status: String,
    pub file_path: String,
    pub items_indexed: usize,
    pub items_embedded: usize,
}

#[derive(Debug)]
pub struct RejectBody {
    pub reviewed_by: Option<String>,
    pub note: Option<String>,
}

#[derive(Debug)]
pub struct RejectResponse {
    pub queue_id: String,
    pub status: String,
}

/// Why a review request is refused.
#[derive(Debug)]
pub enum ReviewError {
    NotFound(String),
    BadRequest(String),
}

/// Who made a decision: the one named, else `user`.
pub fn decided_by(reviewed_by: &Option<String>) -> (r: String)
    ensures
        r@ == (match opt_view(*reviewed_by) {
            Some(n) => n,
            None => "user"@,
        }),
{
    match reviewed_by {
        Some(n) => n.clone(),
        None => to_owned_string("user"),
    }
}

// ---------------------------------------------------------------------------
// Approval
// ---------------------------------------------------------------------------
/// Position of the first entry with the id.
pub open spec fn find_entry(entries: Seq<QueueEntry>, id: Seq<char>) -> Option<int>
    decreases entries.len(),
{
    if entries.len() == 0 {
        None
    } else {
        match find_entry(entries.drop_last(), id) {
            Some(k) => Some(k),
            None => if entries.last().id@ == id {
                Some(entries.len() - 1)
            } else {
                None
            },
        }
    }
}

/// Which entry an approval applies to, or why it is refused: the entry
/// must exist, be pending, and propose a new item.
pub open spec fn approval_target(entries: Seq<QueueEntry>, id: Seq<char>) -> Result<
    int,
    (bool, Seq<char>),
> {
    match find_entry(entries, id) {
        None => Err((true, "queue entry not found: "@ + id)),
        Some(k) => if entries[k].status@ != "pending"@ {
            Err((false, "queue entry not pending (current: "@ + entries[k].status@ + ")"@))
        } else if entries[k].kind@ != "new"@ {
            Err((false, "approve only supports kind='new' for MVP (got '"@ + entries[k].kind@ + "')"@))
        } else {
            Ok(k)
        },
    }
}

proof fn lemma_find_entry(entries: Seq<QueueEntry>, id: Seq<char>)
    ensures
        find_entry(entries, id) matches Some(k) ==> 0 <= k < entries.len() && entries[k].id@ == id
            && forall|j: int| 0 <= j < k ==> entries[j].id@ != id,
        find_entry(entries, id) is None ==> forall|j: int|
            0 <= j < entries.len() ==> entries[j].id@ != id,
    decreases entries.len(),
{
    if entries.len() > 0 {
        lemma_find_entry(entries.drop_last(), id);
        assert forall|j: int| 0 <= j < entries.len() - 1 implies entries[j] == entries.drop_last()[j] by {}
    }
}

/// The position of the queue entry to approve, or the refusal: not found,
/// not pending, or not a proposal of a new item.
pub fn check_approvable(entries: &Vec<QueueEntry>, queue_id: &str) -> (r: Result<usize, ReviewError>)
    ensures
        match r {
            Ok(k) => approval_target(entries@, queue_id@) == Ok::<int, (bool, Seq<char>)>(k as int),
            Err(ReviewError::NotFound(m)) => approval_target(entries@, queue_id@) == Err::<int, (bool, Seq<char>)>((true, m@)),
            Err(ReviewError::BadRequest(m)) => approval_target(entries@, queue_id@) == Err::<int, (bool, Seq<char>)>((false, m@)),
        },
{
    let mut i: usize = 0;
    proof {
        lemma_find_entry(entries@, queue_id@);
    }
    while i < entries.len()
        invariant
            i <= entries.len(),
            forall|j: int| 0 <= j < i ==> entries@[j].id@ != queue_id@,
            find_entry(entries@, queue_id@) matches Some(k) ==> 0 <= k < entries.len()
                && entries@[k].id@ == queue_id@ && forall|j: int|
                0 <= j < k ==> entries@[j].id@ != queue_id@,
            find_entry(entries@, queue_id@) is None ==> forall|j: int|
                0 <= j < entries.len() ==> entries@[j].id@ != queue_id@,
        decreases entries.len() - i,
    {
        if str_eq(entries[i].id.as_str(), queue_id) {
            let e = &entries[i];
            assert(find_entry(entries@, queue_id@) == Some(i as int));
            if !str_eq(e.status.as_str(), "pending") {
                let mut m = to_owned_string("queue entry not pending (current: ");
                m.append(e.status.as_str());
                m.append(")");
                return Err(ReviewError::BadRequest(m));
            }
            if !str_eq(e.kind.as_str(), "new") {
                let mut m = to_owned_string("approve only supports kind='new' for MVP (got '");
                m.append(e.kind.as_str());
                m.append("')");
                return Err(ReviewError::BadRequest(m));
            }
            return Ok(i);
        }
        i += 1;
    }
    assert(find_entry(entries@, queue_id@) is None);
    let mut m = to_owned_string("queue entry not found: ");
    m.append(queue_id);
    Err(ReviewError::NotFound(m))
}

// ---------------------------------------------------------------------------
// The item a proposal describes
// ---------------------------------------------------------------------------
/// The state of tag stripping after a prefix: the text kept and whether a
/// tag is open.
pub open spec fn strip_state(s: Seq<char>) -> (Seq<char>, bool)
    decreases s.len(),
{
    if s.len() == 0 {
        (Seq::empty(), false)
    } else {
        let (out, in_tag) = strip_state(s.drop_last());
        let c = s.last();
        if c == '<' {
            (out, true)
        } else if c == '>' {
            (out, false)
        } else if !in_tag {
            (out.push(c), in_tag)
        } else {
            (out, in_tag)
        }
    }
}

/// The text of an HTML fragment: everything between `<` and `>` dropped,
/// whitespace runs collapsed.
pub open spec fn strip_html_spec(s: Seq<char>) -> Seq<char> {
    squash_ws(strip_state(s).0)
}

pub fn strip_html(s: &str) -> (r: String)
    ensures
        r@ == strip_html_spec(s@),
{
    let cs = char_vec(s);
    let mut out: Vec<char> = Vec::new();
    let mut in_tag = false;
    let mut i: usize = 0;
    while i < cs.len()
        invariant
            i <= cs.len(),
            (out@, in_tag) == strip_state(cs@.take(i as int)),
        decreases cs.len() - i,
    {
        assert(cs@.take(i + 1).drop_last() =~= cs@.take(i as int));
        let c = cs[i];
        if c == '<' {
            in_tag = true;
        } else if c == '>' {
            in_tag = false;
        } else if !in_tag {
            out.push(c);
        }
        i += 1;
    }
    assert(cs@.take(cs.len() as int) =~= cs@);
    squash_whitespace(&out)
}

/// What a proposal's JSON payload says, as plain values: each field that
/// is present as a string, the tags that are strings, and the relations
/// whose `rel` and `target` are both strings.
#[derive(Debug)]
pub struct Proposal {
    pub knowledge_type: Option<String>,
    pub scope: Option<String>,
    pub source_type: Option<String>,
    pub stability: Option<String>,
    pub domain: Option<String>,
    pub tags: Vec<String>,
    pub title: Option<String>,
    pub body_text: Option<String>,
    pub body_html: Option<String>,
    pub relations: Vec<Relation>,
    pub claim_key: Option<String>,
}

pub open spec fn text_or_empty(o: Option<Seq<char>>) -> Seq<char> {
    match o {
        Some(t) => t,
        None => Seq::empty(),
    }
}

/// The item a proposal becomes: an active item with a fresh id, created
/// now, its vocabulary fields read as names (defaults: a user-scoped,
/// medium-term fact, from an agent when the proposer is `agent:...` and
/// from the user otherwise), its body text taken from the HTML body when
/// not given. The confidence text is the one given.
pub open spec fn is_proposed_item(
    p: Proposal,
    proposed_by: Seq<char>,
    confidence: Seq<char>,
    item: KnowledgeRecord,
) -> bool {
    &&& is_ulid_text(item.id@)
    &&& item.knowledge_type == (match opt_view(p.knowledge_type) {
        Some(t) => KnowledgeType::from_name(normalized(t)),
        None => KnowledgeType::Fact,
    })
    &&& item.scope == (match opt_view(p.scope) {
        Some(t) => Scope::from_name(normalized(t)),
        None => Scope::User,
    })
    &&& item.confidence@ == confidence
    &&& item.source_type == (match opt_view(p.source_type) {
        Some(t) => SourceType::from_name(normalized(t)),
        None => if starts_with(proposed_by, "agent:"@) {
            SourceType::Agent
        } else {
            SourceType::User
        },
    })
    &&& item.status == Status::Active
    &&& item.stability == (match opt_view(p.stability) {
        Some(t) => Stability::from_name(normalized(t)),
        None => Stability::MediumTerm,
    })
    &&& item.created == item.modified
    &&& item.created.offset_seconds == 0
    &&& item.valid_from is None
    &&& item.valid_until is None
    &&& opt_view(item.domain) == opt_view(p.domain)
    &&& strings_view(item.tags@) == strings_view(p.tags@)
    &&& item.title@ == text_or_empty(opt_view(p.title))
    &&& item.body_text@ == (match opt_view(p.body_text) {
        Some(t) => t,
        None => match opt_view(p.body_html) {
            Some(h) => strip_html_spec(h),
            None => Seq::empty(),
        },
    })
    &&& item.body_html@ == text_or_empty(opt_view(p.body_html))
    &&& item.relations@ == p.relations@
    &&& opt_view(item.claim_key) == opt_view(p.claim_key)
    &&& item.defined_path is None
    &&& item.defined_start_line is None
    &&& item.defined_end_line is None
}

/// `by` names an agent: it begins with `agent:`.
pub open spec fn names_agent(by: Seq<char>) -> bool {
    by.len() >= 6 && by.take(6) == seq!['a', 'g', 'e', 'n', 't', ':']
}

/// What an approved proposal becomes, field by field where the proposal
/// leaves a field out: with no source type it is the agent's exactly when
/// the proposer is `agent:`-named and the user's otherwise; with no type it
/// is a fact, with no scope the user's, with no stability medium-term; it is
/// always active, has no validity window, and was created when it was last
/// changed. What the proposal gives (domain, tags, title, bodies,
/// relations, claim key) it keeps.
pub proof fn lemma_proposal_defaults(
    p: Proposal,
    proposed_by: Seq<char>,
    confidence: Seq<char>,
    item: KnowledgeRecord,
)
    requires
        is_proposed_item(p, proposed_by, confidence, item),
    ensures
        p.source_type is None ==> (item.source_type == SourceType::Agent <==> names_agent(
            proposed_by,
        )),
        p.source_type is None && !names_agent(proposed_by) ==> item.source_type == SourceType::User,
        p.knowledge_type is None ==> item.knowledge_type == KnowledgeType::Fact,
        p.scope is None ==> item.scope == Scope::User,
        p.stability is None ==> item.stability == Stability::MediumTerm,
        item.status == Status::Active,
        item.valid_from is None && item.valid_until is None,
        item.created == item.modified,
        item.confidence@ == confidence,
        p.source_type matches Some(t) ==> item.source_type == SourceType::from_name(normalized(t@)),
        opt_view(item.domain) == opt_view(p.domain),
        strings_view(item.tags@) == strings_view(p.tags@),
        p.title matches Some(t) ==> item.title@ == t@,
        p.title is None ==> item.title@.len() == 0,
        p.body_html matches Some(h) ==> item.body_html@ == h@,
        p.body_html is None ==> item.body_html@.len() == 0,
        p.body_text matches Some(t) ==> item.body_text@ == t@,
        item.relations@ == p.relations@,
        opt_view(item.claim_key) == opt_view(p.claim_key),
        item.defined_path is None && item.defined_start_line is None && item.defined_end_line is None,
{
    reveal_strlit("agent:");
    assert("agent:"@ =~= seq!['a', 'g', 'e', 'n', 't', ':']);
}

fn text_or_default(o: Option<String>) -> (r: String)
    ensures
        r@ == text_or_empty(opt_view(o)),
{
    match o {
        Some(t) => t,
        None => String::new(),
    }
}

/// The item a proposal describes, with a fresh id and the current time.
pub fn item_from_payload(p: Proposal, proposed_by: &str, confidence: String) -> (item: KnowledgeRecord)
    ensures
        is_proposed_item(p, proposed_by@, confidence@, item),
        p.source_type is None ==> (item.source_type == SourceType::Agent <==> names_agent(
            proposed_by@,
        )),
        p.source_type is None && !names_agent(proposed_by@) ==> item.source_type
            == SourceType::User,
{
    let ghost gp = p;
    let now = now_utc();
    let knowledge_type = match &p.knowledge_type {
        Some(t) => KnowledgeType::parse(t.as_str()),
        None => KnowledgeType::Fact,
    };
    let scope = match &p.scope {
        Some(t) => Scope::parse(t.as_str()),
        None => Scope::User,
    };
    let source_type = match &p.source_type {
        Some(t) => SourceType::parse(t.as_str()),
        None => if has_prefix(proposed_by, "agent:") {
            SourceType::Agent
        } else {
            SourceType::User
        },
    };
    let stability = match &p.stability {
        Some(t) => Stability::parse(t.as_str()),
        None => Stability::MediumTerm,
    };
    let body_text = match p.body_text {
        Some(t) => t,
        None => match &p.body_html {
            Some(h) => strip_html(h.as_str()),
            None => String::new(),
        },
    };
    let item = KnowledgeRecord {
        id: new_id(),
        knowledge_type,
        scope,
        confidence,
        source_type,
        status: Status::Active,
        stability,
        created: now,
        modified: now,
        valid_from: None,
        valid_until: None,
        domain: p.domain,
        tags: p.tags,
        title: text_or_default(p.title),
        body_text,
        body_html: text_or_default(p.body_html),
        relations: p.relations,
        claim_key: p.claim_key,
        defined_path: None,
        defined_start_line: None,
        defined_end_line: None,
    };
    proof {
        lemma_proposal_defaults(gp, proposed_by@, confidence@, item);
    }
    item
}

// ---------------------------------------------------------------------------
// Where the section goes
// ---------------------------------------------------------------------------
/// The vault file of an approved item: `<type>s.html` in the folder of its
/// scope, under `projects/<scope_path or default>/` for project items.
pub open spec fn default_target_spec(
    knowledge_type: KnowledgeType,
    scope: Scope,
    scope_path: Option<Seq<char>>,
) -> Seq<char> {
    let bucket = knowledge_type.name() + "s.html"@;
    match scope {
        Scope::Project => "projects/"@ + text_or_default_path(scope_path) + seq!['/'] + bucket,
        Scope::User => "user/"@ + bucket,
        Scope::Workspace => "workspace/"@ + bucket,
        Scope::Organization => "organization/"@ + bucket,
        Scope::Global => "global/"@ + bucket,
        Scope::Session => "session/"@ + bucket,
    }
}

pub open spec fn text_or_default_path(o: Option<Seq<char>>) -> Seq<char> {
    match o {
        Some(p) => p,
        None => "default"@,
    }
}

pub fn default_target_for(
    knowledge_type: KnowledgeType,
    scope: Scope,
    scope_path: Option<&str>,
) -> (r: String)
    ensures
        r@ == default_target_spec(
            knowledge_type,
            scope,
            match scope_path {
                Some(p) => Some(p@),
                None => None,
            },
        ),
{
    let mut bucket = to_owned_string(knowledge_type.as_str());
    bucket.append("s.html");
    let mut r = match scope {
        Scope::Project => {
            let mut r = to_owned_string("projects/");
            match scope_path {
                Some(p) => r.append(p),
                None => r.append("default"),
            }
            r.push('/');
            r
        },
        Scope::User => to_owned_string("user/"),
        Scope::Workspace => to_owned_string("workspace/"),
        Scope::Organization => to_owned_string("organization/"),
        Scope::Global => to_owned_string("global/"),
        Scope::Session => to_owned_string("session/"),
    };
    r.append(bucket.as_str());
    r
}

/// The text of a new vault file: an empty HTML document with a title.
pub open spec fn empty_document(title: Seq<char>) -> Seq<char> {
    "<!doctype html>\n<html lang=\"en\">\n<head>\n  <meta charset=\"utf-8\">\n  <title>"@ + title
        + "</title>\n</head>\n<body>\n\n</body>\n</html>\n"@
}

pub fn empty_document_for(title: &str) -> (r: String)
    ensures
        r@ == empty_document(title@),
{
    let mut r = to_owned_string("<!doctype html>\n<html lang=\"en\">\n<head>\n  <meta charset=\"utf-8\">\n  <title>");
    r.append(title);
    r.append("</title>\n</head>\n<body>\n\n</body>\n</html>\n");
    r
}

/// Whether `</body>` starts at position `k` of a (lower-cased) text.
pub open spec fn body_close_at(s: Seq<char>, k: int) -> bool {
    0 <= k && k + 7 <= s.len() && s.subrange(k, k + 7) == "</body>"@
}

/// The last position where `</body>` starts, ignoring ASCII case.
pub open spec fn last_body_close(s: Seq<char>) -> Option<int> {
    if exists|k: int| body_close_at(lower_seq(s), k) {
        Some(choose|k: int| body_close_at(lower_seq(s), k) && forall|j: int| body_close_at(lower_seq(s), j) ==> j <= k)
    } else {
        None
    }
}

/// The file text with a section added: before the last `</body>` (the text
/// before it right-trimmed, the section on lines of its own), or at the end
/// when there is no `</body>`.
pub open spec fn insert_before_body_close_spec(existing: Seq<char>, snippet: Seq<char>) -> Seq<
    char,
> {
    match last_body_close(existing) {
        Some(k) => trim_end(existing.take(k)) + seq!['\n'] + snippet + seq!['\n'] + existing.skip(k),
        None => trim_end(existing) + seq!['\n'] + snippet + seq!['\n'],
    }
}

fn find_last_body_close(low: &Vec<char>) -> (r: Option<usize>)
    ensures
        match r {
            Some(f) => body_close_at(low@, f as int) && forall|j: int|
                body_close_at(low@, j) ==> j <= f,
            None => forall|j: int| !body_close_at(low@, j),
        },
{
    let pat = char_vec("</body>");
    proof {
        reveal_strlit("</body>");
    }
    if low.len() < 7 {
        return None;
    }
    let mut found: Option<usize> = None;
    let mut k: usize = 0;
    while k <= low.len() - 7
        invariant
            low.len() >= 7,
            pat@ == "</body>"@,
            pat@.len() == 7,
            match found {
                Some(f) => body_close_at(low@, f as int) && f < k && forall|j: int|
                    0 <= j < k && body_close_at(low@, j) ==> j <= f,
                None => forall|j: int| 0 <= j < k ==> !body_close_at(low@, j),
            },
        decreases low.len() - k,
    {
        let window = slice_chars(low, k, k + 7);
        if crate::text::chars_eq(&window, &pat) {
            found = Some(k);
        }
        k += 1;
    }
    found
}

proof fn lemma_last_body_close(s: Seq<char>, f: Option<int>)
    requires
        match f {
            Some(f) => body_close_at(lower_seq(s), f) && forall|j: int|
                body_close_at(lower_seq(s), j) ==> j <= f,
            None => forall|j: int| !body_close_at(lower_seq(s), j),
        },
    ensures
        last_body_close(s) == f,
{
    let ls = lower_seq(s);
    if let Some(f) = f {
        let c = choose|c: int| body_close_at(ls, c) && forall|j: int| body_close_at(ls, j) ==> j <= c;
        assert(c <= f);
        assert(f <= c);
    }
}

pub fn insert_before_body_close(existing: &str, snippet: &str) -> (r: String)
    ensures
        r@ == insert_before_body_close_spec(existing@, snippet@),
{
    let cs = char_vec(existing);
    let low = lower_chars(&cs);
    let found = find_last_body_close(&low);
    proof {
        lemma_last_body_close(existing@, match found {
            Some(f) => Some(f as int),
            None => None,
        });
    }
    let head_end = match found {
        Some(f) => f,
        None => cs.len(),
    };
    let head = trim_end_chars(&slice_chars(&cs, 0, head_end));
    let tail = slice_chars(&cs, head_end, cs.len());
    let mut r = string_from_chars(&head);
    r.push('\n');
    r.append(snippet);
    r.push('\n');
    crate::text::push_chars(&mut r, &tail);
    assert(cs@.subrange(0, head_end as int) =~= cs@.take(head_end as int));
    assert(cs@.subrange(head_end as int, cs.len() as int) =~= cs@.skip(head_end as int));
    if found.is_none() {
        assert(cs@.take(cs.len() as int) =~= cs@);
        assert(cs@.skip(cs.len() as int) =~= Seq::<char>::empty());
    }
    r
}

// ---------------------------------------------------------------------------
// Proposals
// ---------------------------------------------------------------------------
/// A proposal needs a proposer: a name that is not blank.
pub fn check_proposed_by(proposed_by: &str) -> (r: Result<(), ReviewError>)
    ensures
        r is Ok <==> trim(proposed_by@).len() > 0,
        r matches Err(e) ==> e matches ReviewError::BadRequest(m) && m@ == "proposed_by is required"@,
{
    let t = trim_chars(&char_vec(proposed_by));
    if t.len() == 0 {
        Err(ReviewError::BadRequest(to_owned_string("proposed_by is required")))
    } else {
        Ok(())
    }
}

/// An update can only be proposed for an item that exists.
pub fn check_update_target(exists: bool, id: &str) -> (r: Result<(), ReviewError>)
    ensures
        r is Ok <==> exists,
        r matches Err(e) ==> e matches ReviewError::NotFound(m) && m@ == "target item not found: "@
            + id@,
{
    if exists {
        Ok(())
    } else {
        let mut m = to_owned_string("target item not found: ");
        m.append(id);
        Err(ReviewError::NotFound(m))
    }
}

/// A path separator: `/`, or `\` as Windows reads it.
pub open spec fn is_path_sep(c: char) -> bool {
    c == '/' || c == '\\'
}

/// A `..` component of `p` starts at `i`.
pub open spec fn parent_step_at(p: Seq<char>, i: int) -> bool {
    &&& 0 <= i
    &&& i + 2 <= p.len()
    &&& p[i] == '.'
    &&& p[i + 1] == '.'
    &&& (i == 0 || is_path_sep(p[i - 1]))
    &&& (i + 2 == p.len() || is_path_sep(p[i + 2]))
}

/// A vault-relative path that stays inside the vault: it does not start at
/// a root, and no component of it is `..`.
pub open spec fn inside_vault(p: Seq<char>) -> bool {
    &&& !(p.len() > 0 && is_path_sep(p[0]))
    &&& forall|i: int| 0 <= i < p.len() ==> !#[trigger] parent_step_at(p, i)
}

/// A path that starts at a root (`/` or `\`), that is `..`, or that climbs
/// out through a `..` component is not inside the vault; a relative path
/// with no `.` at all is.
pub proof fn lemma_escaping_paths(a: Seq<char>, b: Seq<char>)
    ensures
        !inside_vault(seq!['/'] + a),
        !inside_vault(seq!['\\'] + a),
        !inside_vault(seq!['.', '.']),
        !inside_vault(seq!['.', '.', '/'] + a),
        !inside_vault(a + seq!['/', '.', '.']),
        !inside_vault(a + seq!['/', '.', '.', '/'] + b),
        (forall|i: int| 0 <= i < a.len() ==> a[i] != '.') && !(a.len() > 0 && is_path_sep(a[0]))
            ==> inside_vault(a),
{
    assert((seq!['/'] + a)[0] == '/');
    assert((seq!['\\'] + a)[0] == '\\');
    assert(parent_step_at(seq!['.', '.'], 0));
    let p1 = seq!['.', '.', '/'] + a;
    assert(p1[0] == '.' && p1[1] == '.' && p1[2] == '/');
    assert(parent_step_at(p1, 0));
    let p2 = a + seq!['/', '.', '.'];
    let n = a.len() as int;
    assert(p2[n] == '/' && p2[n + 1] == '.' && p2[n + 2] == '.');
    assert(parent_step_at(p2, n + 1));
    let p3 = a + seq!['/', '.', '.', '/'] + b;
    assert(p3[n] == '/' && p3[n + 1] == '.' && p3[n + 2] == '.' && p3[n + 3] == '/');
    assert(parent_step_at(p3, n + 1));
}

/// Refuses a target file that would lead out of the vault: an absolute
/// path, or one with a `..` component.
pub fn check_target_path(p: &str) -> (r: Result<(), ReviewError>)
    ensures
        r is Ok <==> inside_vault(p@),
        r matches Err(e) ==> e matches ReviewError::BadRequest(m) && m@
            == "target_file must be a relative path inside the vault: "@ + p@,
{
    let cs = char_vec(p);
    let mut bad = cs.len() > 0 && (cs[0] == '/' || cs[0] == '\\');
    let mut i: usize = 0;
    while !bad && i < cs.len()
        invariant
            cs@ == p@,
            i <= cs.len(),
            bad <==> (cs@.len() > 0 && is_path_sep(cs@[0])),
            forall|j: int| 0 <= j < i ==> !#[trigger] parent_step_at(cs@, j),
        decreases cs.len() - i,
    {
        if cs.len() - i >= 2 && cs[i] == '.' && cs[i + 1] == '.' && (i == 0 || cs[i - 1] == '/'
            || cs[i - 1] == '\\') && (cs.len() - i == 2 || cs[i + 2] == '/' || cs[i + 2] == '\\') {
            assert(parent_step_at(cs@, i as int));
            let mut m = to_owned_string("target_file must be a relative path inside the vault: ");
            m.append(p);
            return Err(ReviewError::BadRequest(m));
        }
        i += 1;
    }
    if bad {
        let mut m = to_owned_string("target_file must be a relative path inside the vault: ");
        m.append(p);
        Err(ReviewError::BadRequest(m))
    } else {
        Ok(())
    }
}

/// The vault file an approved item is written to: the one asked for, else
/// the default file of its type and scope.
pub fn approval_file(
    target_file: &Option<String>,
    knowledge_type: KnowledgeType,
    scope: Scope,
    scope_path: Option<&str>,
) -> (r: String)
    ensures
        r@ == match opt_view(*target_file) {
            Some(t) => t,
            None => default_target_spec(
                knowledge_type,
                scope,
                match scope_path {
                    Some(p) => Some(p@),
                    None => None,
                },
            ),
        },
{
    match target_file {
        Some(t) => to_owned_string(t.as_str()),
        None => default_target_for(knowledge_type, scope, scope_path),
    }
}

} // verus!

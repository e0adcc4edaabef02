//! The vault's bookkeeping: what text of an item is embedded, when the
//! embeddings are redone, and the report of a reindexing pass.
use vstd::prelude::*;
use crate::decimal::{decimal, usize_to_string};
use crate::schema::{opt_view, Error};
use crate::text::{str_eq, to_owned_string};

verus! {

/// The text embedded for an item: its title, a blank line and its body
/// text, or the body text alone when it has no title.
pub open spec fn embed_text_spec(title: Seq<char>, body_text: Seq<char>) -> Seq<char> {
    if title.len() == 0 {
        body_text
    } else {
        title + "\n\n"@ + body_text
    }
}

pub fn embed_text_for(title: &str, body_text: &str) -> (r: String)
    ensures
        r@ == embed_text_spec(title@, body_text@),
{
    if title.is_empty() {
        to_owned_string(body_text)
    } else {
        let mut r = to_owned_string(title);
        r.append("\n\n");
        r.append(body_text);
        r
    }
}

/// Name of the vault's system folder, which holds the index and is never
/// scanned for HTML.
pub const SYSTEM_DIRNAME: &'static str = "system";
/// File name of the index inside the system folder.
pub const INDEX_FILENAME: &'static str = "index.sqlite";

/// Whether the stored model name differs from the embedder's: then every
/// item is embedded again.
pub fn model_changed(stored: &Option<String>, model: &str) -> (r: bool)
    ensures
        r == (opt_view(*stored) != Some(model@)),
{
    match stored {
        Some(s) => !str_eq(s.as_str(), model),
        None => true,
    }
}

/// The positions, among the first `n` items, of those that get embedded:
/// all of them when forced, else those without an embedding.
pub open spec fn embed_positions(has_embedding: Seq<bool>, force: bool, n: int) -> Seq<usize>
    decreases n,
{
    if n <= 0 {
        Seq::empty()
    } else {
        let r = embed_positions(has_embedding, force, n - 1);
        if force || !has_embedding[n - 1] {
            r.push((n - 1) as usize)
        } else {
            r
        }
    }
}

/// The positions of the items that get embedded.
pub fn items_to_embed(has_embedding: &Vec<bool>, force: bool) -> (r: Vec<usize>)
    ensures
        r@ == embed_positions(has_embedding@, force, has_embedding.len() as int),
{
    let mut r: Vec<usize> = Vec::new();
    let mut i: usize = 0;
    while i < has_embedding.len()
        invariant
            i <= has_embedding.len(),
            r@ == embed_positions(has_embedding@, force, i as int),
        decreases has_embedding.len() - i,
    {
        if force || !has_embedding[i] {
            r.push(i);
        }
        i += 1;
    }
    r
}

/// The embedder must return one vector per text.
pub fn check_batch_len(sent: usize, got: usize) -> (r: Result<(), Error>)
    ensures
        r is Ok <==> sent == got,
        r matches Err(Error::Other(m)) && m@ == "embed_batch length mismatch: "@ + decimal(
            sent as nat,
        ) + " in, "@ + decimal(got as nat) + " out"@ || r is Ok,
{
    if sent == got {
        Ok(())
    } else {
        let mut m = to_owned_string("embed_batch length mismatch: ");
        m.append(usize_to_string(sent).as_str());
        m.append(" in, ");
        m.append(usize_to_string(got).as_str());
        m.append(" out");
        Err(Error::Other(m))
    }
}

/// What a reindexing pass did.
#[derive(Debug)]
pub struct ReindexReport {
    pub files_scanned: usize,
    pub items_indexed: usize,
    pub items_embedded: usize,
    pub files_skipped: usize,
    /// The files that failed, with the error.
    pub errors: Vec<(String, String)>,
}

pub open spec fn error_pairs(v: Seq<(String, String)>) -> Seq<(Seq<char>, Seq<char>)> {
    v.map_values(|p: (String, String)| (p.0@, p.1@))
}

impl ReindexReport {
    /// A report of a pass that has not looked at any file yet.
    pub fn new() -> (r: ReindexReport)
        ensures
            r.files_scanned == 0,
            r.items_indexed == 0,
            r.items_embedded == 0,
            r.files_skipped == 0,
            r.errors@.len() == 0,
    {
        ReindexReport {
            files_scanned: 0,
            items_indexed: 0,
            items_embedded: 0,
            files_skipped: 0,
            errors: Vec::new(),
        }
    }

    /// Counts one scanned file: a file whose sections the index already
    /// held, or with no items, is skipped (its embeddings still count); one
    /// with items written adds its items and embeddings; a failure is listed
    /// with its path.
    pub fn record(&mut self, path: &str, outcome: FileOutcome)
        requires
            old(self).files_scanned < usize::MAX,
            outcome matches FileOutcome::Indexed(n, e) ==> old(self).items_indexed + n <= usize::MAX
                && old(self).items_embedded + e <= usize::MAX && old(self).files_skipped < usize::MAX,
            outcome matches FileOutcome::Unchanged(e) ==> old(self).items_embedded + e <= usize::MAX
                && old(self).files_skipped < usize::MAX,
        ensures
            final(self).files_scanned == old(self).files_scanned + 1,
            match outcome {
                FileOutcome::Unchanged(e) => {
                    &&& final(self).files_skipped == old(self).files_skipped + 1
                    &&& final(self).items_indexed == old(self).items_indexed
                    &&& final(self).items_embedded == old(self).items_embedded + e
                    &&& final(self).errors@ == old(self).errors@
                },
                FileOutcome::Indexed(n, e) => {
                    &&& n == 0 ==> final(self).files_skipped == old(self).files_skipped + 1
                        && final(self).items_indexed == old(self).items_indexed
                        && final(self).items_embedded == old(self).items_embedded
                    &&& n > 0 ==> final(self).files_skipped == old(self).files_skipped
                        && final(self).items_indexed == old(self).items_indexed + n
                        && final(self).items_embedded == old(self).items_embedded + e
                    &&& final(self).errors@ == old(self).errors@
                },
                FileOutcome::Failed(m) => {
                    &&& final(self).files_skipped == old(self).files_skipped
                    &&& final(self).items_indexed == old(self).items_indexed
                    &&& final(self).items_embedded == old(self).items_embedded
                    &&& error_pairs(final(self).errors@) == error_pairs(old(self).errors@).push(
                        (path@, m@),
                    )
                },
            },
    {
        self.files_scanned = self.files_scanned + 1;
        match outcome {
            FileOutcome::Unchanged(e) => {
                self.files_skipped = self.files_skipped + 1;
                self.items_embedded = self.items_embedded + e;
            },
            FileOutcome::Indexed(n, e) => {
                if n == 0 {
                    self.files_skipped = self.files_skipped + 1;
                } else {
                    self.items_indexed = self.items_indexed + n;
                    self.items_embedded = self.items_embedded + e;
                }
            },
            FileOutcome::Failed(m) => {
                let ghost before = self.errors@;
                self.errors.push((to_owned_string(path), m));
                assert(error_pairs(self.errors@) =~= error_pairs(before).push((path@, m@)));
            },
        }
    }
}

/// What reindexing one file came to.
#[derive(Debug)]
pub enum FileOutcome {
    /// The index already held exactly the file's sections (see
    /// `file_unchanged`), so nothing was written; the count is of the items
    /// embedded.
    Unchanged(usize),
    /// The file's sections were written to the index: the items written and
    /// the items embedded.
    Indexed(usize, usize),
    /// The file could not be read or indexed.
    Failed(String),
}

/// The body of a reindex request: a file to reindex (the whole vault is
/// reindexed either way).
#[derive(Debug)]
pub struct ReindexBody {
    pub path: Option<String>,
}

/// The answer to a reindex request.
#[derive(Debug)]
pub struct ReindexResponse {
    pub files_scanned: usize,
    pub items_indexed: usize,
    pub files_skipped: usize,
    /// `path: error` for each failed file.
    pub errors: Vec<String>,
}

/// The response for a finished pass: its counts and one `path: error` line
/// per failure.
pub fn reindex_response(report: &ReindexReport) -> (r: ReindexResponse)
    ensures
        r.files_scanned == report.files_scanned,
        r.items_indexed == report.items_indexed,
        r.files_skipped == report.files_skipped,
        r.errors@.len() == report.errors@.len(),
        forall|i: int|
            0 <= i < r.errors@.len() ==> #[trigger] r.errors@[i]@ == report.errors@[i].0@ + ": "@
                + report.errors@[i].1@,
{
    let mut errors: Vec<String> = Vec::new();
    let mut i: usize = 0;
    while i < report.errors.len()
        invariant
            i <= report.errors.len(),
            errors@.len() == i,
            forall|j: int|
                0 <= j < i ==> #[trigger] errors@[j]@ == report.errors@[j].0@ + ": "@
                    + report.errors@[j].1@,
        decreases report.errors.len() - i,
    {
        let mut line = to_owned_string(report.errors[i].0.as_str());
        line.append(": ");
        line.append(report.errors[i].1.as_str());
        errors.push(line);
        i += 1;
    }
    ReindexResponse {
        files_scanned: report.files_scanned,
        items_indexed: report.items_indexed,
        files_skipped: report.files_skipped,
        errors,
    }
}

} // verus!

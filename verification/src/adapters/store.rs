//! File-backed stores: which files count as transactions, in which order they
//! are listed, and how the queue file reads and is written.
use vstd::prelude::*;

use crate::error::Error;
use crate::order::lex_lt;
use crate::paths::{extension_of, has_extension};
use crate::text::{
    chars_of, find_char, is_ws, lemma_find_char_at, lines, lines_of, push_str, strip_cr, string_of,
    trim, trim_bounds, trim_end, trim_start, views,
};

verus! {

/// Whether `path` has one of the extensions of transaction documents.
pub open spec fn transaction_ext(path: Seq<char>) -> bool {
    ||| extension_of(path) == Some("md"@)
    ||| extension_of(path) == Some("yaml"@)
    ||| extension_of(path) == Some("yml"@)
}

/// A regular file with a `.md`, `.yaml` or `.yml` extension; `is_file` says
/// whether `path` is a regular file.
pub fn is_transaction_file(path: &str, is_file: bool) -> (b: bool)
    ensures
        b == (is_file && transaction_ext(path@)),
{
    is_file && (has_extension(path, "md") || has_extension(path, "yaml") || has_extension(
        path,
        "yml",
    ))
}

/// The paths of the transaction files of a listing, in listing order.
pub open spec fn kept_paths(entries: Seq<(String, bool)>) -> Seq<Seq<char>>
    decreases entries.len(),
{
    if entries.len() == 0 {
        seq![]
    } else {
        let rest = kept_paths(entries.drop_last());
        let e = entries.last();
        if e.1 && transaction_ext(e.0@) {
            rest.push(e.0@)
        } else {
            rest
        }
    }
}

/// The transaction files of a directory listing (each entry's path and
/// whether it is a regular file), sorted by path.
pub fn transaction_paths(entries: Vec<(String, bool)>) -> (r: Vec<String>)
    ensures
        forall|a: int, b: int| 0 <= a < b < r@.len() ==> !lex_lt(#[trigger] r@[b]@, #[trigger] r@[a]@),
        exists|perm: Seq<usize>|
            crate::order::is_permutation(perm, kept_paths(entries@).len())
                && #[trigger] crate::commands::search::arranged(kept_paths(entries@), perm, views(r@)),
{
    let mut keys: Vec<String> = Vec::new();
    let mut i: usize = 0;
    while i < entries.len()
        invariant
            i <= entries@.len(),
            views(keys@) == kept_paths(entries@.take(i as int)),
        decreases entries.len() - i,
    {
        proof {
            assert(entries@.take(i + 1).drop_last() == entries@.take(i as int));
            assert(entries@.take(i + 1).last() == entries@[i as int]);
        }
        if is_transaction_file(entries[i].0.as_str(), entries[i].1) {
            keys.push(entries[i].0.clone());
        }
        i += 1;
    }
    assert(entries@.take(entries@.len() as int) == entries@);
    let ghost ks = keys@.map_values(|k: String| k@);
    assert(ks == views(keys@));
    let perm = crate::order::descending_order(&keys);
    let n = perm.len();
    let mut out: Vec<String> = Vec::new();
    let mut k = n;
    while k > 0
        invariant
            k <= n == perm@.len() == keys@.len(),
            ks == keys@.map_values(|k: String| k@),
            crate::order::stable_descending(ks, perm@),
            out@.len() == n - k,
            forall|m: int| 0 <= m < out@.len() ==> #[trigger] out@[m]@ == ks[perm@[n - 1 - m] as int],
        decreases k,
    {
        let s = keys[perm[k - 1]].clone();
        out.push(s);
        k -= 1;
    }
    let ghost rev = Seq::new(n as nat, |m: int| perm@[n - 1 - m]);
    proof {
        assert forall|a: int, b: int| 0 <= a < b < out@.len() implies !lex_lt(
            #[trigger] out@[b]@,
            #[trigger] out@[a]@,
        ) by {
            assert(out@[a]@ == ks[perm@[n - 1 - a] as int]);
            assert(out@[b]@ == ks[perm@[n - 1 - b] as int]);
            assert(0 <= n - 1 - b < n - 1 - a < n);
        }
        assert forall|j: int| 0 <= j < n implies #[trigger] crate::order::lists(rev, j) by {
            assert(crate::order::lists(perm@, j));
            let a = choose|a: int| 0 <= a < perm@.len() && #[trigger] perm@[a] == j;
            assert(rev[n - 1 - a] == j);
        }
        assert forall|a: int, b: int| 0 <= a < b < rev.len() implies rev[a] != rev[b] by {
            assert(rev[a] == perm@[n - 1 - a] && rev[b] == perm@[n - 1 - b]);
        }
        assert(crate::order::is_permutation(rev, ks.len()));
        assert(crate::commands::search::arranged(ks, rev, views(out@)));
    }
    out
}

/// The transaction store: a directory of transaction files.
#[derive(Debug)]
pub struct FsTransactionStore {
    pub dir: String,
}

impl FsTransactionStore {
    pub fn new(dir: String) -> (s: Self)
        ensures
            s.dir == dir,
    {
        FsTransactionStore { dir }
    }
}

/// The lines of the queue file that hold a URL, trimmed.
pub open spec fn queue_lines(ls: Seq<Seq<char>>) -> Seq<Seq<char>>
    decreases ls.len(),
{
    if ls.len() == 0 {
        seq![]
    } else {
        let rest = queue_lines(ls.drop_last());
        let t = trim(ls.last());
        if t.len() > 0 {
            rest.push(t)
        } else {
            rest
        }
    }
}

/// The local queue: a file of URLs, one per line.
#[derive(Debug)]
pub struct FsQueueStore {
    pub path: String,
}

impl FsQueueStore {
    pub fn new(path: String) -> (s: Self)
        ensures
            s.path == path,
    {
        FsQueueStore { path }
    }
}

/// The URLs in the queue file's `content`.
pub fn queued_urls(content: &str) -> (r: Vec<String>)
    ensures
        views(r@) == queue_lines(lines(content@)),
{
    let ls = lines_of(content);
    let mut urls: Vec<String> = Vec::new();
    let mut i: usize = 0;
    while i < ls.len()
        invariant
            i <= ls.len(),
            views(ls@) == lines(content@),
            views(urls@) == queue_lines(views(ls@).take(i as int)),
        decreases ls.len() - i,
    {
        let v = chars_of(ls[i].as_str());
        let (lo, hi) = trim_bounds(&v, 0, v.len());
        proof {
            assert(v@.subrange(0, v@.len() as int) == v@);
            assert(views(ls@).take(i + 1).drop_last() == views(ls@).take(i as int));
            assert(views(ls@).take(i + 1).last() == ls@[i as int]@);
        }
        if lo < hi {
            let t = string_of(&v, lo, hi);
            proof {
                assert(views(urls@.push(t)) == views(urls@).push(t@));
            }
            urls.push(t);
        }
        i += 1;
    }
    assert(views(ls@).take(ls@.len() as int) == views(ls@));
    urls
}

pub open spec fn joined(xs: Seq<Seq<char>>, sep: Seq<char>) -> Seq<char>
    decreases xs.len(),
{
    if xs.len() == 0 {
        seq![]
    } else if xs.len() == 1 {
        xs[0]
    } else {
        joined(xs.drop_last(), sep) + sep + xs.last()
    }
}

/// The queue file's text for `urls`: one per line, ending with a newline
/// unless empty.
pub open spec fn queue_text(urls: Seq<Seq<char>>) -> Seq<char> {
    let j = joined(urls, "\n"@);
    if j.len() == 0 {
        j
    } else {
        j + "\n"@
    }
}

/// What the queue file holds after it is replaced by `urls`.
pub fn queue_content(urls: &Vec<String>) -> (s: String)
    ensures
        s@ == queue_text(views(urls@)),
{
    let ghost uv = views(urls@);
    let mut s = String::new();
    let mut i: usize = 0;
    while i < urls.len()
        invariant
            i <= urls@.len(),
            uv == views(urls@),
            s@ == joined(uv.take(i as int), "\n"@),
        decreases urls.len() - i,
    {
        if i > 0 {
            push_str(&mut s, "\n");
        }
        push_str(&mut s, urls[i].as_str());
        proof {
            assert(uv.take(i + 1).drop_last() == uv.take(i as int));
            assert(uv.take(i + 1).last() == urls@[i as int]@);
            if i == 0 {
                assert(uv.take(1)[0] == urls@[0]@);
            }
        }
        i += 1;
    }
    assert(uv.take(urls@.len() as int) == uv);
    if crate::text::str_eq(s.as_str(), "") {
        proof {
            reveal_strlit("");
        }
        s
    } else {
        proof {
            reveal_strlit("");
            if s@.len() == 0 {
                assert(s@ =~= ""@);
            }
        }
        push_str(&mut s, "\n");
        s
    }
}

// ── Reading back what was written ─────────────────────────────────────────────

/// A URL as the queue file can hold it: not empty, without surrounding
/// whitespace, without a line break.
pub open spec fn queue_entry(u: Seq<char>) -> bool {
    &&& u.len() > 0
    &&& !is_ws(u[0])
    &&& !is_ws(u.last())
    &&& forall|k: int| 0 <= k < u.len() ==> u[k] != '\n'
}

/// Each URL followed by a newline.
pub open spec fn terminated(urls: Seq<Seq<char>>) -> Seq<char>
    decreases urls.len(),
{
    if urls.len() == 0 {
        seq![]
    } else {
        urls[0] + seq!['\n'] + terminated(urls.drop_first())
    }
}

proof fn lemma_terminated_push(urls: Seq<Seq<char>>, u: Seq<char>)
    ensures
        terminated(urls.push(u)) == terminated(urls) + u + seq!['\n'],
    decreases urls.len(),
{
    if urls.len() == 0 {
        assert(urls.push(u).drop_first() =~= Seq::<Seq<char>>::empty());
        assert(terminated(urls.push(u).drop_first()) =~= Seq::<char>::empty());
        assert(terminated(urls.push(u)) =~= u + seq!['\n']);
    } else {
        lemma_terminated_push(urls.drop_first(), u);
        assert(urls.push(u).drop_first() =~= urls.drop_first().push(u));
        assert(terminated(urls.push(u)) =~= terminated(urls) + u + seq!['\n']);
    }
}

proof fn lemma_queue_text_terminated(urls: Seq<Seq<char>>)
    requires
        forall|i: int| 0 <= i < urls.len() ==> #[trigger] urls[i].len() > 0,
    ensures
        queue_text(urls) == terminated(urls),
        urls.len() > 0 ==> joined(urls, "\n"@) + "\n"@ == terminated(urls),
    decreases urls.len(),
{
    reveal_strlit("\n");
    if urls.len() == 1 {
        assert(urls.drop_first() =~= Seq::<Seq<char>>::empty());
        assert(terminated(urls.drop_first()) =~= Seq::<char>::empty());
        assert(terminated(urls) =~= urls[0] + seq!['\n']);
    } else if urls.len() > 1 {
        let init = urls.drop_last();
        assert forall|i: int| 0 <= i < init.len() implies #[trigger] init[i].len() > 0 by {
            assert(init[i] == urls[i]);
        }
        lemma_queue_text_terminated(init);
        lemma_terminated_push(init, urls.last());
        assert(init.push(urls.last()) =~= urls);
        assert(joined(urls, "\n"@) + "\n"@ =~= joined(init, "\n"@) + "\n"@ + urls.last() + seq!['\n']);
    }
    if urls.len() == 0 {
        assert(terminated(urls) =~= Seq::<char>::empty());
    }
}

proof fn lemma_lines_terminated(urls: Seq<Seq<char>>)
    requires
        forall|i: int| 0 <= i < urls.len() ==> queue_entry(#[trigger] urls[i]),
    ensures
        lines(terminated(urls)) == urls,
    decreases urls.len(),
{
    if urls.len() > 0 {
        let u = urls[0];
        let rest = urls.drop_first();
        assert forall|i: int| 0 <= i < rest.len() implies queue_entry(#[trigger] rest[i]) by {
            assert(rest[i] == urls[i + 1]);
        }
        lemma_lines_terminated(rest);
        let s = terminated(urls);
        assert(s == u + seq!['\n'] + terminated(rest));
        assert(queue_entry(urls[0]));
        assert forall|k: int| 0 <= k < u.len() implies s[k] != '\n' by {
            assert(s[k] == u[k]);
        }
        assert(s[u.len() as int] == '\n');
        lemma_find_char_at(s, '\n', u.len() as int);
        assert(s.take(u.len() as int) =~= u);
        assert(s.skip(u.len() as int + 1) =~= terminated(rest));
        assert(u.last() != '\r');
        assert(strip_cr(u) == u);
        assert(lines(s) =~= seq![u] + rest);
    }
}

proof fn lemma_queue_lines_entries(ls: Seq<Seq<char>>)
    requires
        forall|i: int| 0 <= i < ls.len() ==> queue_entry(#[trigger] ls[i]),
    ensures
        queue_lines(ls) == ls,
    decreases ls.len(),
{
    if ls.len() > 0 {
        let init = ls.drop_last();
        assert forall|i: int| 0 <= i < init.len() implies queue_entry(#[trigger] init[i]) by {
            assert(init[i] == ls[i]);
        }
        lemma_queue_lines_entries(init);
        let u = ls.last();
        assert(queue_entry(ls[ls.len() - 1]));
        assert(trim_start(u) == u);
        assert(trim_end(u) == u);
        assert(init.push(u) =~= ls);
    }
}

/// The queue file written for `urls` reads back as `urls`.
pub proof fn lemma_queue_round_trip(urls: Seq<Seq<char>>)
    requires
        forall|i: int| 0 <= i < urls.len() ==> queue_entry(#[trigger] urls[i]),
    ensures
        queue_lines(lines(queue_text(urls))) == urls,
{
    assert forall|i: int| 0 <= i < urls.len() implies #[trigger] urls[i].len() > 0 by {
        assert(queue_entry(urls[i]));
    }
    lemma_queue_text_terminated(urls);
    lemma_lines_terminated(urls);
    lemma_queue_lines_entries(urls);
}

/// The log of URLs that failed to parse.
#[derive(Debug)]
pub struct FileFailedLog {
    pub path: String,
}

impl FileFailedLog {
    pub fn new(path: String) -> (s: Self)
        ensures
            s.path == path,
    {
        FileFailedLog { path }
    }
}

/// Where the schema for `validate` and `add` comes from.
#[derive(Debug)]
pub struct FileSchemaSource {
    pub path: Option<String>,
}

impl FileSchemaSource {
    pub fn new(path: Option<String>) -> (s: Self)
        ensures
            s.path == path,
    {
        FileSchemaSource { path }
    }

    /// The configured schema path, or the error that it is not configured.
    pub fn schema_path(&self) -> (r: Result<String, Error>)
        ensures
            match self.path {
                Some(p) => r matches Ok(q) && q@ == p@,
                None => r matches Err(Error::Config(m)) && m@
                    == "schema_file is not configured; set schema_file in config.yaml (or the SCHEMA_FILE environment variable)"@,
            },
    {
        match &self.path {
            Some(p) => Ok(p.clone()),
            None => Err(
                Error::Config(
                    "schema_file is not configured; set schema_file in config.yaml (or the SCHEMA_FILE environment variable)".to_string(),
                ),
            ),
        }
    }
}

/// The error for a schema file that cannot be read.
pub fn unreadable_schema(path: &str, detail: &str) -> (e: Error)
    ensures
        e matches Error::Config(m) && m@ == "Cannot read schema file "@ + path@ + ": "@ + detail@,
{
    let mut m = String::new();
    push_str(&mut m, "Cannot read schema file ");
    push_str(&mut m, path);
    push_str(&mut m, ": ");
    push_str(&mut m, detail);
    Error::Config(m)
}

} // verus!

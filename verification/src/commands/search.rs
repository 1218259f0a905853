//! `search`: find transactions by product name, and invoice URLs recorded in
//! more than one transaction file.
use vstd::prelude::*;

use crate::commands::validate::{front_block, front_block_of};
use crate::order::{descending_order, stable_descending};
use crate::paths::{extension_of, file_name, file_name_of, has_extension};
use crate::ports::StoredDoc;
use crate::text::{
    chars_of, contains_str, contains_sub, decimal, find_char, lines, lines_of, lowercase,
    pad_left, pad_right, push_char, push_decimal, push_padded_left, push_padded_right,
    push_repeat, push_str, repeat_char, string_of, to_lowercase, trim, trim_bounds,
    trim_char_bounds, trim_matches, views,
};

verus! {

// ── Front-matter fields ───────────────────────────────────────────────────────

/// The `key: value` pair on one front-matter line, if it holds one: the
/// trimmed text before the first `:`, and the trimmed text after it with
/// surrounding `"` and then `'` removed. An indented line (a block scalar's
/// continuation) holds none.
pub open spec fn field_pair(line: Seq<char>) -> Option<(Seq<char>, Seq<char>)> {
    let t = trim(line);
    if line.len() > 0 && (line[0] == ' ' || line[0] == '\t') {
        None
    } else {
        match find_char(t, ':') {
            None => None,
            Some(i) => Some(
                (trim(t.take(i)), trim_matches(trim_matches(trim(t.skip(i + 1)), '"'), '\'')),
            ),
        }
    }
}

pub open spec fn pairs_of(ls: Seq<Seq<char>>) -> Seq<(Seq<char>, Seq<char>)>
    decreases ls.len(),
{
    if ls.len() == 0 {
        seq![]
    } else {
        let rest = pairs_of(ls.drop_last());
        match field_pair(ls.last()) {
            Some(p) => rest.push(p),
            None => rest,
        }
    }
}

/// The `key: value` pairs of `content`'s front-matter, in order.
pub open spec fn fields_of(content: Seq<char>) -> Seq<(Seq<char>, Seq<char>)> {
    match front_block(content) {
        Some(b) => pairs_of(lines(b)),
        None => seq![],
    }
}

/// The value of `key` among `fields`: the last pair with that key wins.
pub open spec fn field_in(fields: Seq<(Seq<char>, Seq<char>)>, key: Seq<char>) -> Option<Seq<char>>
    decreases fields.len(),
{
    if fields.len() == 0 {
        None
    } else if fields.last().0 == key {
        Some(fields.last().1)
    } else {
        field_in(fields.drop_last(), key)
    }
}

pub open spec fn pair_views(v: Seq<(String, String)>) -> Seq<(Seq<char>, Seq<char>)> {
    v.map_values(|p: (String, String)| (p.0@, p.1@))
}

/// The pair on one line.
fn field_pair_of(line: &str) -> (r: Option<(String, String)>)
    ensures
        match r {
            Some(p) => field_pair(line@) == Some((p.0@, p.1@)),
            None => field_pair(line@) is None,
        },
{
    let v = chars_of(line);
    let (lo, hi) = trim_bounds(&v, 0, v.len());
    assert(v@.subrange(0, v@.len() as int) == v@);
    let ghost t = v@.subrange(lo as int, hi as int);
    assert(t == trim(line@));
    if v.len() > 0 && (v[0] == ' ' || v[0] == '\t') {
        return None;
    }
    let mut k = lo;
    while k < hi && v[k] != ':'
        invariant
            lo <= k <= hi <= v@.len(),
            forall|j: int| lo <= j < k ==> v@[j] != ':',
        decreases hi - k,
    {
        k += 1;
    }
    if k == hi {
        proof {
            crate::text::lemma_find_char_none(t, ':');
        }
        return None;
    }
    proof {
        crate::text::lemma_find_char_at(t, ':', k - lo);
        assert(t.take(k - lo) == v@.subrange(lo as int, k as int));
        assert(t.skip(k - lo + 1) == v@.subrange(k + 1, hi as int));
    }
    let (klo, khi) = trim_bounds(&v, lo, k);
    let key = string_of(&v, klo, khi);
    let (vlo, vhi) = trim_bounds(&v, k + 1, hi);
    let (qlo, qhi) = trim_char_bounds(&v, vlo, vhi, '"');
    let (alo, ahi) = trim_char_bounds(&v, qlo, qhi, '\'');
    let value = string_of(&v, alo, ahi);
    Some((key, value))
}

/// The `key: value` pairs of the front-matter (the first `---` block).
pub fn extract_fields(content: &str) -> (r: Vec<(String, String)>)
    ensures
        pair_views(r@) == fields_of(content@),
{
    let mut out: Vec<(String, String)> = Vec::new();
    let block = match front_block_of(content) {
        Some(b) => b,
        None => return out,
    };
    let ls = lines_of(block.as_str());
    let mut i: usize = 0;
    while i < ls.len()
        invariant
            i <= ls@.len(),
            views(ls@) == lines(block@),
            pair_views(out@) == pairs_of(views(ls@).take(i as int)),
        decreases ls.len() - i,
    {
        proof {
            assert(views(ls@).take(i + 1).drop_last() == views(ls@).take(i as int));
            assert(views(ls@).take(i + 1).last() == ls@[i as int]@);
        }
        match field_pair_of(ls[i].as_str()) {
            Some(p) => {
                out.push(p);
            },
            None => {},
        }
        i += 1;
    }
    assert(views(ls@).take(ls@.len() as int) == views(ls@));
    out
}

/// The value of `key` among `fields`; the last occurrence wins.
pub fn field(fields: &Vec<(String, String)>, key: &str) -> (r: Option<String>)
    ensures
        match r {
            Some(v) => field_in(pair_views(fields@), key@) == Some(v@),
            None => field_in(pair_views(fields@), key@) is None,
        },
{
    let ghost pv = pair_views(fields@);
    let mut i = fields.len();
    assert(pv.take(i as int) == pv);
    while i > 0
        invariant
            i <= fields@.len(),
            pv == pair_views(fields@),
            field_in(pv, key@) == field_in(pv.take(i as int), key@),
        decreases i,
    {
        assert(pv.take(i as int).drop_last() == pv.take(i - 1));
        assert(pv.take(i as int).last() == (fields@[i - 1].0@, fields@[i - 1].1@));
        if crate::text::str_eq(fields[i - 1].0.as_str(), key) {
            return Some(fields[i - 1].1.clone());
        }
        i -= 1;
    }
    None
}

// ── Markdown docs ─────────────────────────────────────────────────────────────

pub open spec fn is_md(d: StoredDoc) -> bool {
    extension_of(d.path@) == Some("md"@)
}

/// The `.md` docs among `docs`, in order.
pub open spec fn md_only(docs: Seq<StoredDoc>) -> Seq<StoredDoc>
    decreases docs.len(),
{
    if docs.len() == 0 {
        seq![]
    } else {
        let rest = md_only(docs.drop_last());
        if is_md(docs.last()) {
            rest.push(docs.last())
        } else {
            rest
        }
    }
}

/// Only `.md` docs take part in search.
pub fn md_docs(docs: Vec<StoredDoc>) -> (r: Vec<StoredDoc>)
    ensures
        r@ == md_only(docs@),
{
    let mut out: Vec<StoredDoc> = Vec::new();
    let ghost all = docs@;
    let n = docs.len();
    let mut docs = docs;
    let mut i: usize = 0;
    while i < n
        invariant
            i <= n == all.len(),
            docs@ == all.skip(i as int),
            out@ == md_only(all.take(i as int)),
        decreases n - i,
    {
        assert(docs@.len() == n - i);
        let d = docs.remove(0);
        proof {
            assert(all.take(i + 1).drop_last() == all.take(i as int));
            assert(all.take(i + 1).last() == all[i as int]);
            assert(all.skip(i as int).drop_first() == all.skip(i + 1));
        }
        if has_extension(d.path.as_str(), "md") {
            out.push(d);
        }
        i += 1;
    }
    assert(all.take(all.len() as int) == all);
    out
}

// ── Search by product name ────────────────────────────────────────────────────

/// One transaction whose name matched.
#[derive(Debug)]
pub struct SearchHit {
    pub date: String,
    pub name: String,
    /// The `unit_price` field as written, if present.
    pub unit_price: Option<String>,
    /// The transaction's file name.
    pub file: String,
}

pub open spec fn or_empty(o: Option<Seq<char>>) -> Seq<char> {
    match o {
        Some(v) => v,
        None => seq![],
    }
}

/// A doc's hit as plain values: (date, name, unit price, file name).
pub open spec fn hit_of(d: StoredDoc) -> (Seq<char>, Seq<char>, Option<Seq<char>>, Seq<char>) {
    let f = fields_of(d.content@);
    (
        or_empty(field_in(f, "date"@)),
        or_empty(field_in(f, "name"@)),
        field_in(f, "unit_price"@),
        or_empty(file_name_of(d.path@)),
    )
}

/// Whether `d`'s name contains `query`, ignoring case.
pub open spec fn name_matches(d: StoredDoc, query: Seq<char>) -> bool {
    contains_sub(lowercase(hit_of(d).1), lowercase(query))
}

/// The hits among `docs` in input order.
pub open spec fn hits_of(docs: Seq<StoredDoc>, query: Seq<char>) -> Seq<
    (Seq<char>, Seq<char>, Option<Seq<char>>, Seq<char>),
>
    decreases docs.len(),
{
    if docs.len() == 0 {
        seq![]
    } else {
        let rest = hits_of(docs.drop_last(), query);
        if name_matches(docs.last(), query) {
            rest.push(hit_of(docs.last()))
        } else {
            rest
        }
    }
}

pub open spec fn opt_view(o: Option<String>) -> Option<Seq<char>> {
    match o {
        Some(s) => Some(s@),
        None => None,
    }
}

pub open spec fn hit_view(h: SearchHit) -> (Seq<char>, Seq<char>, Option<Seq<char>>, Seq<char>) {
    (h.date@, h.name@, opt_view(h.unit_price), h.file@)
}

pub open spec fn hit_views(hs: Seq<SearchHit>) -> Seq<(Seq<char>, Seq<char>, Option<Seq<char>>, Seq<char>)> {
    hs.map_values(|h: SearchHit| hit_view(h))
}

fn unwrap_text(o: Option<String>) -> (r: String)
    ensures
        r@ == or_empty(opt_view(o)),
{
    match o {
        Some(s) => s,
        None => String::new(),
    }
}

fn copy_opt(o: &Option<String>) -> (r: Option<String>)
    ensures
        opt_view(r) == opt_view(*o),
{
    match o {
        Some(s) => Some(s.clone()),
        None => None,
    }
}

fn copy_hit(h: &SearchHit) -> (r: SearchHit)
    ensures
        hit_view(r) == hit_view(*h),
{
    SearchHit {
        date: h.date.clone(),
        name: h.name.clone(),
        unit_price: copy_opt(&h.unit_price),
        file: h.file.clone(),
    }
}

fn hit_for(d: &StoredDoc, query: &str, query_lower: &str) -> (r: Option<SearchHit>)
    requires
        query_lower@ == lowercase(query@),
    ensures
        match r {
            Some(h) => name_matches(*d, query@) && hit_view(h) == hit_of(*d),
            None => !name_matches(*d, query@),
        },
{
    let fields = extract_fields(d.content.as_str());
    let name = unwrap_text(field(&fields, "name"));
    let name_lower = to_lowercase(name.as_str());
    if !contains_str(name_lower.as_str(), query_lower) {
        return None;
    }
    let date = unwrap_text(field(&fields, "date"));
    let unit_price = field(&fields, "unit_price");
    let file = unwrap_text(file_name(d.path.as_str()));
    Some(SearchHit { date, name, unit_price, file })
}

pub open spec fn date_keys(hs: Seq<(Seq<char>, Seq<char>, Option<Seq<char>>, Seq<char>)>) -> Seq<
    Seq<char>,
> {
    hs.map_values(|h: (Seq<char>, Seq<char>, Option<Seq<char>>, Seq<char>)| h.0)
}

/// `hits` put in the order `perm`.
pub open spec fn arranged<T>(xs: Seq<T>, perm: Seq<usize>, out: Seq<T>) -> bool {
    out.len() == perm.len() && forall|k: int| 0 <= k < out.len() ==> #[trigger] out[k] == xs[perm[k] as int]
}

/// The `.md` transactions whose `name` contains `query` (ignoring case),
/// newest first: a stable sort by `date`, descending.
pub fn search_by_name(query: &str, docs: Vec<StoredDoc>) -> (r: Vec<SearchHit>)
    ensures
        ({
            let hs = hits_of(md_only(docs@), query@);
            exists|perm: Seq<usize>|
                stable_descending(date_keys(hs), perm) && #[trigger] arranged(
                    hs,
                    perm,
                    hit_views(r@),
                )
        }),
{
    let q_lower = to_lowercase(query);
    let md = md_docs(docs);
    let mut hits: Vec<SearchHit> = Vec::new();
    let mut i: usize = 0;
    while i < md.len()
        invariant
            i <= md@.len(),
            q_lower@ == lowercase(query@),
            hit_views(hits@) == hits_of(md@.take(i as int), query@),
        decreases md.len() - i,
    {
        proof {
            assert(md@.take(i + 1).drop_last() == md@.take(i as int));
            assert(md@.take(i + 1).last() == md@[i as int]);
        }
        match hit_for(&md[i], query, q_lower.as_str()) {
            Some(h) => {
                hits.push(h);
            },
            None => {},
        }
        i += 1;
    }
    assert(md@.take(md@.len() as int) == md@);
    let ghost hs = hits_of(md@, query@);
    let mut dates: Vec<String> = Vec::new();
    let mut j: usize = 0;
    while j < hits.len()
        invariant
            j <= hits@.len(),
            hit_views(hits@) == hs,
            dates@.map_values(|k: String| k@) == date_keys(hs).take(j as int),
        decreases hits.len() - j,
    {
        dates.push(hits[j].date.clone());
        proof {
            assert(date_keys(hs).take(j + 1) == date_keys(hs).take(j as int).push(hs[j as int].0));
            assert(hs[j as int] == hit_view(hits@[j as int]));
        }
        j += 1;
    }
    assert(date_keys(hs).take(hits@.len() as int) == date_keys(hs));
    let perm = descending_order(&dates);
    let mut out: Vec<SearchHit> = Vec::new();
    let mut k: usize = 0;
    while k < perm.len()
        invariant
            k <= perm@.len(),
            stable_descending(date_keys(hs), perm@),
            hit_views(hits@) == hs,
            out@.len() == k,
            forall|m: int| 0 <= m < k ==> hit_view(#[trigger] out@[m]) == hs[perm@[m] as int],
        decreases perm.len() - k,
    {
        let h = copy_hit(&hits[perm[k]]);
        out.push(h);
        k += 1;
    }
    assert(arranged(hs, perm@, hit_views(out@)));
    out
}


// ── Search listing ────────────────────────────────────────────────────────────

pub open spec fn search_row(date: Seq<char>, price: Seq<char>, name: Seq<char>, file: Seq<char>) -> Seq<char> {
    pad_right(date, 22) + "  "@ + pad_left(price, 10) + "  "@ + pad_right(name, 40) + "  "@ + file
}

/// The lines `search name` prints for `hits`, each shown with its price text.
pub open spec fn search_lines(
    query: Seq<char>,
    hits: Seq<(Seq<char>, Seq<char>, Option<Seq<char>>, Seq<char>)>,
    prices: Seq<Seq<char>>,
) -> Seq<Seq<char>> {
    if hits.len() == 0 {
        seq!["No matches for '"@ + query + "'."@]
    } else {
        seq![search_row("Date"@, "Unit price"@, "Name"@, "File"@), repeat_char('-', 100)]
            + Seq::new(hits.len(), |k: int| search_row(hits[k].0, prices[k], hits[k].1, hits[k].3))
            + seq!["\n"@ + decimal(hits.len()) + " result(s)."@]
    }
}

fn row_text(date: &str, price: &str, name: &str, file: &str) -> (r: String)
    ensures
        r@ == search_row(date@, price@, name@, file@),
{
    let mut r = String::new();
    push_padded_right(&mut r, date, 22);
    push_str(&mut r, "  ");
    push_padded_left(&mut r, price, 10);
    push_str(&mut r, "  ");
    push_padded_right(&mut r, name, 40);
    push_str(&mut r, "  ");
    push_str(&mut r, file);
    r
}

/// The listing for the hits of `query`; `prices[k]` is how the unit price of
/// `hits[k]` is shown (two decimals).
pub fn search_listing(query: &str, hits: &Vec<SearchHit>, prices: &Vec<String>) -> (r: Vec<String>)
    requires
        prices@.len() == hits@.len(),
    ensures
        views(r@) == search_lines(query@, hit_views(hits@), views(prices@)),
{
    let ghost hv = hit_views(hits@);
    let ghost pv = views(prices@);
    let mut out: Vec<String> = Vec::new();
    if hits.len() == 0 {
        let mut m = String::new();
        push_str(&mut m, "No matches for '");
        push_str(&mut m, query);
        push_str(&mut m, "'.");
        out.push(m);
        assert(views(out@) == seq![m@]);
        return out;
    }
    out.push(row_text("Date", "Unit price", "Name", "File"));
    let mut dashes = String::new();
    push_repeat(&mut dashes, '-', 100);
    out.push(dashes);
    let ghost head = views(out@);
    let mut k: usize = 0;
    while k < hits.len()
        invariant
            k <= hits@.len() == prices@.len(),
            hv == hit_views(hits@),
            pv == views(prices@),
            views(out@) == head + Seq::new(
                k as nat,
                |j: int| search_row(hv[j].0, pv[j], hv[j].1, hv[j].3),
            ),
        decreases hits.len() - k,
    {
        let h = &hits[k];
        let row = row_text(h.date.as_str(), prices[k].as_str(), h.name.as_str(), h.file.as_str());
        let ghost before = views(out@);
        out.push(row);
        proof {
            assert(views(out@) == before.push(row@));
            assert(Seq::new((k + 1) as nat, |j: int| search_row(hv[j].0, pv[j], hv[j].1, hv[j].3))
                == Seq::new(k as nat, |j: int| search_row(hv[j].0, pv[j], hv[j].1, hv[j].3)).push(
                search_row(hv[k as int].0, pv[k as int], hv[k as int].1, hv[k as int].3),
            ));
        }
        k += 1;
    }
    let mut last = String::new();
    push_str(&mut last, "\n");
    push_decimal(&mut last, hits.len() as u64);
    push_str(&mut last, " result(s).");
    let ghost body = views(out@);
    out.push(last);
    assert(views(out@) == body.push(last@));
    out
}

// ── Duplicate links ───────────────────────────────────────────────────────────

/// The (link, file name) a doc contributes, if it records a link.
pub open spec fn link_entry(d: StoredDoc) -> Option<(Seq<char>, Seq<char>)> {
    let link = or_empty(field_in(fields_of(d.content@), "link"@));
    if link.len() == 0 {
        None
    } else {
        Some((link, or_empty(file_name_of(d.path@))))
    }
}

pub open spec fn link_entries(docs: Seq<StoredDoc>) -> Seq<(Seq<char>, Seq<char>)>
    decreases docs.len(),
{
    if docs.len() == 0 {
        seq![]
    } else {
        let rest = link_entries(docs.drop_last());
        match link_entry(docs.last()) {
            Some(e) => rest.push(e),
            None => rest,
        }
    }
}

/// The first group of `gs` for `link`.
pub open spec fn link_index(gs: Seq<(Seq<char>, Seq<Seq<char>>)>, link: Seq<char>) -> Option<int>
    decreases gs.len(),
{
    if gs.len() == 0 {
        None
    } else {
        match link_index(gs.drop_last(), link) {
            Some(i) => Some(i),
            None => if gs.last().0 == link {
                Some(gs.len() - 1)
            } else {
                None
            },
        }
    }
}

/// The files recorded under each link, links in order of first appearance.
pub open spec fn link_groups(es: Seq<(Seq<char>, Seq<char>)>) -> Seq<(Seq<char>, Seq<Seq<char>>)>
    decreases es.len(),
{
    if es.len() == 0 {
        seq![]
    } else {
        let gs = link_groups(es.drop_last());
        let e = es.last();
        match link_index(gs, e.0) {
            Some(i) => gs.update(i, (gs[i].0, gs[i].1.push(e.1))),
            None => gs.push((e.0, seq![e.1])),
        }
    }
}

/// The groups with more than one file.
pub open spec fn shared_only(gs: Seq<(Seq<char>, Seq<Seq<char>>)>) -> Seq<(Seq<char>, Seq<Seq<char>>)>
    decreases gs.len(),
{
    if gs.len() == 0 {
        seq![]
    } else {
        let rest = shared_only(gs.drop_last());
        if gs.last().1.len() > 1 {
            rest.push(gs.last())
        } else {
            rest
        }
    }
}

/// An invoice URL and the transaction files that record it.
#[derive(Debug)]
pub struct DuplicateLink {
    pub link: String,
    pub files: Vec<String>,
}

pub open spec fn group_views(gs: Seq<(String, Vec<String>)>) -> Seq<(Seq<char>, Seq<Seq<char>>)> {
    gs.map_values(|g: (String, Vec<String>)| (g.0@, views(g.1@)))
}

pub open spec fn dup_views(ds: Seq<DuplicateLink>) -> Seq<(Seq<char>, Seq<Seq<char>>)> {
    ds.map_values(|d: DuplicateLink| (d.link@, views(d.files@)))
}

fn link_entry_of(d: &StoredDoc) -> (r: Option<(String, String)>)
    ensures
        match r {
            Some(e) => link_entry(*d) == Some((e.0@, e.1@)),
            None => link_entry(*d) is None,
        },
{
    let fields = extract_fields(d.content.as_str());
    let link = unwrap_text(field(&fields, "link"));
    if crate::text::str_eq(link.as_str(), "") {
        proof {
            reveal_strlit("");
        }
        return None;
    }
    proof {
        reveal_strlit("");
        if link@.len() == 0 {
            assert(link@ =~= ""@);
        }
    }
    Some((link, unwrap_text(file_name(d.path.as_str()))))
}

/// Record `file` under `link` in `groups`.
fn add_to_group(groups: &mut Vec<(String, Vec<String>)>, link: String, file: String)
    ensures
        group_views(final(groups)@) == match link_index(group_views(old(groups)@), link@) {
            Some(i) => group_views(old(groups)@).update(
                i,
                (group_views(old(groups)@)[i].0, group_views(old(groups)@)[i].1.push(file@)),
            ),
            None => group_views(old(groups)@).push((link@, seq![file@])),
        },
{
    let ghost gv = group_views(groups@);
    let mut j: usize = 0;
    while j < groups.len()
        invariant
            j <= groups@.len(),
            groups@ == old(groups)@,
            gv == group_views(groups@),
            link_index(gv.take(j as int), link@) is None,
        decreases groups.len() - j,
    {
        assert(gv.take(j + 1).drop_last() == gv.take(j as int));
        if crate::text::str_eq(groups[j].0.as_str(), link.as_str()) {
            proof {
                assert(link_index(gv.take(j + 1), link@) == Some(j as int));
                lemma_link_index_prefix(gv, link@, j as int + 1);
            }
            let (l, mut fs) = groups.remove(j);
            fs.push(file);
            groups.insert(j, (l, fs));
            proof {
                assert(views(fs@) == gv[j as int].1.push(file@));
                assert(group_views(groups@) =~= gv.update(j as int, (gv[j as int].0, gv[j as int].1.push(file@))));
            }
            return;
        }
        j += 1;
    }
    assert(gv.take(groups@.len() as int) == gv);
    let mut fs: Vec<String> = Vec::new();
    fs.push(file);
    groups.push((link, fs));
    assert(views(fs@) == seq![file@]);
    assert(group_views(groups@) =~= gv.push((link@, seq![file@])));
}

/// A link found within the first `k` groups is found at the same place in all.
proof fn lemma_link_index_prefix(gs: Seq<(Seq<char>, Seq<Seq<char>>)>, link: Seq<char>, k: int)
    requires
        0 <= k <= gs.len(),
        link_index(gs.take(k), link) is Some,
    ensures
        link_index(gs, link) == link_index(gs.take(k), link),
    decreases gs.len() - k,
{
    if k < gs.len() {
        assert(gs.take(k + 1).drop_last() == gs.take(k));
        lemma_link_index_prefix(gs, link, k + 1);
    } else {
        assert(gs.take(k) == gs);
    }
}

/// The invoice URLs that more than one `.md` transaction records, each with
/// its files in input order; links in order of first appearance.
pub fn find_duplicates(docs: Vec<StoredDoc>) -> (r: Vec<DuplicateLink>)
    ensures
        dup_views(r@) == shared_only(link_groups(link_entries(md_only(docs@)))),
{
    let md = md_docs(docs);
    let mut groups: Vec<(String, Vec<String>)> = Vec::new();
    let mut i: usize = 0;
    while i < md.len()
        invariant
            i <= md@.len(),
            group_views(groups@) == link_groups(link_entries(md@.take(i as int))),
        decreases md.len() - i,
    {
        proof {
            assert(md@.take(i + 1).drop_last() == md@.take(i as int));
            assert(md@.take(i + 1).last() == md@[i as int]);
        }
        match link_entry_of(&md[i]) {
            Some((link, file)) => {
                proof {
                    let es = link_entries(md@.take(i as int));
                    assert(link_entries(md@.take(i + 1)) == es.push((link@, file@)));
                    assert(es.push((link@, file@)).drop_last() == es);
                }
                add_to_group(&mut groups, link, file);
            },
            None => {},
        }
        i += 1;
    }
    assert(md@.take(md@.len() as int) == md@);
    let ghost orig = groups@;
    let ghost gv = group_views(orig);
    let mut out: Vec<DuplicateLink> = Vec::new();
    let n = groups.len();
    let mut groups = groups;
    let mut rest: Vec<(String, Vec<String>)> = Vec::new();
    while groups.len() > 0
        invariant
            groups@.len() + rest@.len() == n == orig.len(),
            forall|k: int| 0 <= k < groups@.len() ==> #[trigger] groups@[k] == orig[k],
            forall|k: int| 0 <= k < rest@.len() ==> #[trigger] rest@[k] == orig[n - 1 - k],
        decreases groups.len(),
    {
        let g = groups.pop().unwrap();
        rest.push(g);
    }
    let mut k: usize = 0;
    while k < n
        invariant
            k <= n == orig.len(),
            gv == group_views(orig),
            rest@.len() + k == n,
            forall|m: int| 0 <= m < rest@.len() ==> #[trigger] rest@[m] == orig[n - 1 - m],
            dup_views(out@) == shared_only(gv.take(k as int)),
        decreases n - k,
    {
        let ghost old_rest = rest@;
        let g = rest.pop().unwrap();
        proof {
            assert(old_rest[old_rest.len() - 1] == orig[k as int]);
            assert(gv[k as int] == (g.0@, views(g.1@)));
        }
        let (link, files) = g;
        proof {
            assert(gv.take(k + 1).drop_last() == gv.take(k as int));
            assert(gv.take(k + 1).last() == gv[k as int]);
        }
        if files.len() > 1 {
            let ghost before = dup_views(out@);
            out.push(DuplicateLink { link, files });
            assert(dup_views(out@) == before.push(gv[k as int]));
        }
        k += 1;
    }
    assert(gv.take(n as int) == gv);
    out
}

/// The lines `search duplicates` prints.
pub open spec fn duplicate_lines(ds: Seq<(Seq<char>, Seq<Seq<char>>)>) -> Seq<Seq<char>> {
    if ds.len() == 0 {
        seq!["No duplicate invoice URLs found."@]
    } else {
        seq![decimal(ds.len()) + " duplicate invoice URL(s) found:\n"@] + group_lines(ds)
    }
}

pub open spec fn group_lines(ds: Seq<(Seq<char>, Seq<Seq<char>>)>) -> Seq<Seq<char>>
    decreases ds.len(),
{
    if ds.len() == 0 {
        seq![]
    } else {
        let d = ds.last();
        group_lines(ds.drop_last()) + seq!["  "@ + d.0] + d.1.map_values(|f: Seq<char>| "    → "@ + f)
    }
}

/// The report of [`find_duplicates`].
pub fn duplicate_listing(ds: &Vec<DuplicateLink>) -> (r: Vec<String>)
    ensures
        views(r@) == duplicate_lines(dup_views(ds@)),
{
    let ghost dv = dup_views(ds@);
    let mut out: Vec<String> = Vec::new();
    if ds.len() == 0 {
        out.push("No duplicate invoice URLs found.".to_string());
        return out;
    }
    let mut head = String::new();
    push_decimal(&mut head, ds.len() as u64);
    push_str(&mut head, " duplicate invoice URL(s) found:\n");
    out.push(head);
    let ghost first = views(out@);
    let mut i: usize = 0;
    while i < ds.len()
        invariant
            i <= ds@.len(),
            dv == dup_views(ds@),
            views(out@) == first + group_lines(dv.take(i as int)),
        decreases ds.len() - i,
    {
        let d = &ds[i];
        let ghost before = views(out@);
        let mut l = String::new();
        push_str(&mut l, "  ");
        push_str(&mut l, d.link.as_str());
        out.push(l);
        let ghost fv = views(d.files@);
        assert(views(out@) == before + seq!["  "@ + d.link@] + fv.take(0).map_values(
            |f: Seq<char>| "    → "@ + f,
        ));
        let mut j: usize = 0;
        while j < d.files.len()
            invariant
                j <= d.files@.len(),
                fv == views(d.files@),
                views(out@) == before + seq!["  "@ + d.link@] + fv.take(j as int).map_values(
                    |f: Seq<char>| "    → "@ + f,
                ),
            decreases d.files.len() - j,
        {
            let mut fl = String::new();
            push_str(&mut fl, "    → ");
            push_str(&mut fl, d.files[j].as_str());
            let ghost prev = views(out@);
            out.push(fl);
            proof {
                assert(views(out@) == prev.push(fl@));
                assert(fv.take(j + 1) == fv.take(j as int).push(fv[j as int]));
                assert(fv.take(j + 1).map_values(|f: Seq<char>| "    → "@ + f) == fv.take(
                    j as int,
                ).map_values(|f: Seq<char>| "    → "@ + f).push("    → "@ + fv[j as int]));
            }
            j += 1;
        }
        proof {
            assert(views(d.files@).take(d.files@.len() as int) == views(d.files@));
            assert(dv.take(i + 1).drop_last() == dv.take(i as int));
            assert(dv.take(i + 1).last() == (d.link@, views(d.files@)));
        }
        i += 1;
    }
    assert(dv.take(ds@.len() as int) == dv);
    out
}
} // verus!

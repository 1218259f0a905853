//! `report monthly`: spending per month, from the `date` and `price_total`
//! of each transaction's front-matter.
use vstd::prelude::*;

use crate::cli::{ReportArgs, ReportCommand};
use crate::commands::search::{is_md, md_docs, md_only};
use crate::commands::validate::{front_block, front_block_of};
use crate::order::{lemma_lex_asymmetric, lemma_lex_irreflexive, lemma_lex_total, lex_less, lex_lt};
use crate::ports::StoredDoc;
use crate::text::{
    byte_prefix, byte_prefix_len, chars_of, decimal, find_char, float_text, is_float_text, lines,
    lines_of, pad_left, pad_right, parse_u32, push_decimal, push_padded_left, push_padded_right,
    push_repeat, push_str, repeat_char, starts_with, starts_with_str, string_of, trim,
    trim_matches, trim_matches_str, trim_str, unsigned_text, views,
};
use crate::config::opt_view;

verus! {

// ── Date and price of one transaction ─────────────────────────────────────────

/// What one front-matter line sets: a `date:` line the date (unquoted), a
/// `price_total:` line the price (its text when it is a number, else none).
pub open spec fn scan_line(
    st: (Option<Seq<char>>, Option<Seq<char>>),
    line: Seq<char>,
) -> (Option<Seq<char>>, Option<Seq<char>>) {
    let t = trim(line);
    if starts_with(t, "date:"@) {
        (Some(trim_matches(trim_matches(trim(t.skip(5)), '"'), '\'')), st.1)
    } else if starts_with(t, "price_total:"@) {
        let p = trim(t.skip(12));
        (st.0, if float_text(p) {
            Some(p)
        } else {
            None
        })
    } else {
        st
    }
}

/// Scan `ls` from `st`, stopping as soon as both values are known.
pub open spec fn scan_lines(
    ls: Seq<Seq<char>>,
    st: (Option<Seq<char>>, Option<Seq<char>>),
) -> (Option<Seq<char>>, Option<Seq<char>>)
    decreases ls.len(),
{
    if ls.len() == 0 {
        st
    } else {
        let next = scan_line(st, ls[0]);
        if next.0 is Some && next.1 is Some {
            next
        } else {
            scan_lines(ls.drop_first(), next)
        }
    }
}

/// The `date` and the `price_total` text of a transaction, when its
/// front-matter has both.
pub open spec fn date_and_price(content: Seq<char>) -> Option<(Seq<char>, Seq<char>)> {
    match front_block(content) {
        None => None,
        Some(b) => {
            let st = scan_lines(lines(b), (None, None));
            match (st.0, st.1) {
                (Some(d), Some(p)) => Some((d, p)),
                _ => None,
            }
        },
    }
}

/// The date and price of a transaction, when its front-matter has both.
pub fn extract_date_and_price(content: &str) -> (r: Option<(String, String)>)
    ensures
        match r {
            Some((d, p)) => date_and_price(content@) == Some((d@, p@)),
            None => date_and_price(content@) is None,
        },
{
    proof {
        reveal_strlit("date:");
        reveal_strlit("price_total:");
    }
    let block = match front_block_of(content) {
        Some(b) => b,
        None => return None,
    };
    let ls = lines_of(block.as_str());
    let ghost lv = views(ls@);
    let mut date: Option<String> = None;
    let mut price: Option<String> = None;
    let mut i: usize = 0;
    assert(lv.skip(0) == lv);
    while i < ls.len()
        invariant
            i <= ls@.len(),
            lv == views(ls@),
            lv == lines(block@),
            front_block(content@) == Some(block@),
            scan_lines(lv, (None, None)) == scan_lines(lv.skip(i as int), (opt_view(date), opt_view(price))),
            !(date is Some && price is Some),
        decreases ls.len() - i,
    {
        let ghost st = (opt_view(date), opt_view(price));
        proof {
            reveal_strlit("date:");
            reveal_strlit("price_total:");
            assert(lv.skip(i as int)[0] == ls@[i as int]@);
            assert(lv.skip(i as int).drop_first() == lv.skip(i + 1));
        }
        let t = trim_str(ls[i].as_str());
        let v = chars_of(t.as_str());
        if starts_with_str(t.as_str(), "date:") {
            let rest = string_of(&v, 5, v.len());
            assert(rest@ == t@.skip(5));
            let r1 = trim_str(rest.as_str());
            let r2 = trim_matches_str(r1.as_str(), '"');
            date = Some(trim_matches_str(r2.as_str(), '\''));
        } else if starts_with_str(t.as_str(), "price_total:") {
            let rest = string_of(&v, 12, v.len());
            assert(rest@ == t@.skip(12));
            let p = trim_str(rest.as_str());
            if is_float_text(p.as_str()) {
                price = Some(p);
            } else {
                price = None;
            }
        }
        assert((opt_view(date), opt_view(price)) == scan_line(st, ls@[i as int]@));
        if date.is_some() && price.is_some() {
            match (date, price) {
                (Some(d), Some(p)) => {
                    return Some((d, p));
                },
                _ => {
                    return None;
                },
            }
        }
        i += 1;
    }
    assert(lv.skip(ls@.len() as int).len() == 0);
    None
}

// ── Year and month ────────────────────────────────────────────────────────────

/// `"YYYY-MM"` as numbers: the text before the first `-` and after it, each
/// an unsigned 32-bit number.
pub open spec fn year_month(ym: Seq<char>) -> Option<(nat, nat)> {
    match find_char(ym, '-') {
        None => None,
        Some(i) => match (unsigned_text(ym.take(i)), unsigned_text(ym.skip(i + 1))) {
            (Some(y), Some(m)) => if y <= u32::MAX && m <= u32::MAX {
                Some((y, m))
            } else {
                None
            },
            _ => None,
        },
    }
}

/// Parse `"YYYY-MM"`.
pub fn parse_year_month(ym: &str) -> (r: Option<(u32, u32)>)
    ensures
        match r {
            Some((y, m)) => year_month(ym@) == Some((y as nat, m as nat)),
            None => year_month(ym@) is None,
        },
{
    let v = chars_of(ym);
    let mut k: usize = 0;
    while k < v.len() && v[k] != '-'
        invariant
            k <= v@.len(),
            v@ == ym@,
            forall|j: int| 0 <= j < k ==> v@[j] != '-',
        decreases v.len() - k,
    {
        k += 1;
    }
    if k == v.len() {
        proof {
            crate::text::lemma_find_char_none(v@, '-');
        }
        return None;
    }
    proof {
        crate::text::lemma_find_char_at(v@, '-', k as int);
    }
    let y = string_of(&v, 0, k);
    let m = string_of(&v, k + 1, v.len());
    assert(y@ == ym@.take(k as int));
    assert(m@ == ym@.skip(k + 1));
    match (parse_u32(y.as_str()), parse_u32(m.as_str())) {
        (Some(a), Some(b)) => Some((a, b)),
        _ => None,
    }
}

// ── Monthly totals ────────────────────────────────────────────────────────────

/// The (year-month, price) a file contributes to the monthly report: a `.md`
/// file whose date begins with a `YYYY-MM` in the selected year and month.
pub open spec fn month_entry(d: StoredDoc, year: Option<u32>, month: Option<u32>) -> Option<
    (Seq<char>, Seq<char>),
> {
    if !is_md(d) {
        None
    } else {
        match date_and_price(d.content@) {
            None => None,
            Some((date, price)) => match byte_prefix(date, 7) {
                None => None,
                Some(ym) => match year_month(ym) {
                    None => None,
                    Some((y, m)) => if (year matches Some(fy) && fy != y) || (month matches Some(fm)
                        && fm != m) {
                        None
                    } else {
                        Some((ym, price))
                    },
                },
            },
        }
    }
}

/// The `--year` and `--month` filters each hold on their own: a file counts
/// only when its date's year is the year asked for (if one is) and its month
/// the month asked for (if one is); it then counts under the same year-month
/// and price as without filters; and a file the unfiltered report counts is
/// dropped only when it misses a filter.
pub proof fn lemma_month_entry_filters(d: StoredDoc, year: Option<u32>, month: Option<u32>)
    ensures
        ({
            let all = month_entry(d, None, None);
            let got = month_entry(d, year, month);
            &&& got is Some ==> got == all
            &&& (got matches Some(e) ==> (year_month(e.0) matches Some(ym) && (year matches Some(
                fy
            ) ==> ym.0 == fy) && (month matches Some(fm) ==> ym.1 == fm)))
            &&& (all matches Some(e) ==> (year_month(e.0) matches Some(ym) && ((got is Some) == ((
            year matches Some(fy) ==> ym.0 == fy) && (month matches Some(fm) ==> ym.1 == fm)))))
        }),
{
}

pub open spec fn month_entries(docs: Seq<StoredDoc>, year: Option<u32>, month: Option<u32>) -> Seq<
    (Seq<char>, Seq<char>),
>
    decreases docs.len(),
{
    if docs.len() == 0 {
        seq![]
    } else {
        let rest = month_entries(docs.drop_last(), year, month);
        match month_entry(docs.last(), year, month) {
            Some(e) => rest.push(e),
            None => rest,
        }
    }
}

fn entry_of(d: &StoredDoc, year: Option<u32>, month: Option<u32>) -> (r: Option<(String, String)>)
    ensures
        match r {
            Some(e) => month_entry(*d, year, month) == Some((e.0@, e.1@)),
            None => month_entry(*d, year, month) is None,
        },
{
    if !crate::paths::has_extension(d.path.as_str(), "md") {
        return None;
    }
    let (date, price) = match extract_date_and_price(d.content.as_str()) {
        Some(dp) => dp,
        None => return None,
    };
    let v = chars_of(date.as_str());
    let k = match byte_prefix_len(&v, 7) {
        Some(k) => k,
        None => return None,
    };
    let ym = string_of(&v, 0, k);
    assert(ym@ == v@.take(k as int));
    let (y, m) = match parse_year_month(ym.as_str()) {
        Some(p) => p,
        None => return None,
    };
    match year {
        Some(fy) => if fy != y {
            return None;
        },
        None => {},
    }
    match month {
        Some(fm) => if fm != m {
            return None;
        },
        None => {},
    }
    Some((ym, price))
}

/// The prices among `es` recorded for `key`, in order.
pub open spec fn prices_for(es: Seq<(Seq<char>, Seq<char>)>, key: Seq<char>) -> Seq<Seq<char>>
    decreases es.len(),
{
    if es.len() == 0 {
        seq![]
    } else {
        let rest = prices_for(es.drop_last(), key);
        if es.last().0 == key {
            rest.push(es.last().1)
        } else {
            rest
        }
    }
}

/// `gs` lists each month of `es` once, in increasing order, with its prices.
pub open spec fn months_of(es: Seq<(Seq<char>, Seq<char>)>, gs: Seq<(Seq<char>, Seq<Seq<char>>)>) -> bool {
    &&& forall|a: int, b: int|
        #![trigger gs[a], gs[b]]
        0 <= a < b < gs.len() ==> lex_lt(gs[a].0, gs[b].0)
    &&& forall|g: int| 0 <= g < gs.len() ==> (#[trigger] gs[g]).1 == prices_for(es, gs[g].0)
        && gs[g].1.len() > 0
    &&& forall|e: int| 0 <= e < es.len() ==> exists|g: int| 0 <= g < gs.len() && #[trigger] gs[g].0 == (#[trigger] es[e]).0
}

proof fn lemma_prices_absent(es: Seq<(Seq<char>, Seq<char>)>, key: Seq<char>)
    requires
        forall|e: int| 0 <= e < es.len() ==> (#[trigger] es[e]).0 != key,
    ensures
        prices_for(es, key) == Seq::<Seq<char>>::empty(),
    decreases es.len(),
{
    if es.len() > 0 {
        lemma_prices_absent(es.drop_last(), key);
    }
}

/// The months of `es` in increasing order, each with its prices in order.
pub fn group_by_month(es: &Vec<(String, String)>) -> (r: Vec<(String, Vec<String>)>)
    ensures
        months_of(crate::commands::search::pair_views(es@), crate::commands::search::group_views(r@)),
{
    let ghost ev = crate::commands::search::pair_views(es@);
    let mut gs: Vec<(String, Vec<String>)> = Vec::new();
    let mut i: usize = 0;
    while i < es.len()
        invariant
            i <= es@.len(),
            ev == crate::commands::search::pair_views(es@),
            months_of(ev.take(i as int), crate::commands::search::group_views(gs@)),
        decreases es.len() - i,
    {
        let ghost gv = crate::commands::search::group_views(gs@);
        let ghost pre = ev.take(i as int);
        let ghost post = ev.take(i + 1);
        let key = es[i].0.as_str();
        let ghost e = ev[i as int];
        proof {
            assert(post.drop_last() == pre);
            assert(post.last() == e);
            assert(e == (key@, es@[i as int].1@));
        }
        let mut p: usize = 0;
        while p < gs.len() && lex_less(gs[p].0.as_str(), key)
            invariant
                p <= gs@.len(),
                gv == crate::commands::search::group_views(gs@),
                key@ == e.0,
                forall|a: int| 0 <= a < p ==> lex_lt(#[trigger] gv[a].0, key@),
            decreases gs.len() - p,
        {
            p += 1;
        }
        let same = p < gs.len() && crate::text::str_eq(gs[p].0.as_str(), key);
        let price = es[i].1.clone();
        let ghost old_gs = gs@;
        if same {
            let (k, mut ps) = gs.remove(p);
            let ghost old_ps = ps@;
            ps.push(price);
            let ghost item = (k, ps);
            gs.insert(p, (k, ps));
            proof {
                assert(gs@ =~= old_gs.update(p as int, item));
                assert(k@ == gv[p as int].0);
                assert(views(old_ps) == gv[p as int].1);
                assert(views(ps@) == views(old_ps).push(e.1));
                let nv = crate::commands::search::group_views(gs@);
                assert(nv =~= gv.update(p as int, (gv[p as int].0, gv[p as int].1.push(e.1))));
                assert forall|g: int| 0 <= g < nv.len() implies (#[trigger] nv[g]).1 == prices_for(
                    post,
                    nv[g].0,
                ) && nv[g].1.len() > 0 by {
                    if g != p {
                        if gv[g].0 == e.0 {
                            lemma_lex_irreflexive(e.0);
                        }
                    }
                }
                assert forall|x: int| 0 <= x < post.len() implies exists|g: int|
                    0 <= g < nv.len() && #[trigger] nv[g].0 == (#[trigger] post[x]).0 by {
                    if x < pre.len() {
                        assert(post[x] == pre[x]);
                        let g = choose|g: int| 0 <= g < gv.len() && #[trigger] gv[g].0 == pre[x].0;
                        assert(nv[g].0 == gv[g].0);
                    } else {
                        assert(nv[p as int].0 == post[x].0);
                    }
                }
            }
        } else {
            proof {
                assert forall|x: int| 0 <= x < pre.len() implies (#[trigger] pre[x]).0 != e.0 by {
                    let g = choose|g: int| 0 <= g < gv.len() && #[trigger] gv[g].0 == pre[x].0;
                    if g < p {
                        lemma_lex_irreflexive(e.0);
                    } else if g > p {
                        lemma_lex_total(gv[p as int].0, e.0);
                        lemma_lex_asymmetric(gv[p as int].0, gv[g].0);
                        crate::order::lemma_lex_transitive(e.0, gv[p as int].0, gv[g].0);
                        lemma_lex_irreflexive(e.0);
                    } else {
                        lemma_lex_total(gv[p as int].0, e.0);
                    }
                }
                lemma_prices_absent(pre, e.0);
            }
            let mut ps: Vec<String> = Vec::new();
            ps.push(price);
            let ks = key.to_string();
            assert(views(ps@) == seq![e.1]);
            let ghost item = (ks, ps);
            gs.insert(p, (ks, ps));
            proof {
                assert(gs@ =~= old_gs.insert(p as int, item));
                let nv = crate::commands::search::group_views(gs@);
                assert(nv =~= gv.insert(p as int, (e.0, seq![e.1])));
                if p < gv.len() {
                    lemma_lex_total(gv[p as int].0, e.0);
                }
                assert forall|a: int, b: int| 0 <= a < b < nv.len() implies lex_lt(
                    (#[trigger] nv[a]).0,
                    (#[trigger] nv[b]).0,
                ) by {
                    if a < p && b == p {
                    } else if a < p && b > p {
                        assert(nv[b] == gv[b - 1]);
                    } else if a == p && b > p {
                        assert(nv[b] == gv[b - 1]);
                        if b - 1 > p {
                            crate::order::lemma_lex_transitive(e.0, gv[p as int].0, gv[b - 1].0);
                        }
                    } else if a > p {
                        assert(nv[a] == gv[a - 1] && nv[b] == gv[b - 1]);
                    }
                }
                assert forall|g: int| 0 <= g < nv.len() implies (#[trigger] nv[g]).1 == prices_for(
                    post,
                    nv[g].0,
                ) && nv[g].1.len() > 0 by {
                    if g < p {
                        assert(lex_lt(gv[g].0, e.0));
                        if gv[g].0 == e.0 {
                            lemma_lex_irreflexive(e.0);
                        }
                    } else if g > p {
                        assert(nv[g] == gv[g - 1]);
                        if gv[g - 1].0 == e.0 {
                            if g - 1 > p {
                                crate::order::lemma_lex_transitive(e.0, gv[p as int].0, gv[g - 1].0);
                            }
                            lemma_lex_irreflexive(e.0);
                        }
                    }
                }
                assert forall|x: int| 0 <= x < post.len() implies exists|g: int|
                    0 <= g < nv.len() && #[trigger] nv[g].0 == (#[trigger] post[x]).0 by {
                    if x < pre.len() {
                        assert(post[x] == pre[x]);
                        let g = choose|g: int| 0 <= g < gv.len() && #[trigger] gv[g].0 == pre[x].0;
                        if g < p {
                            assert(nv[g].0 == gv[g].0);
                        } else {
                            assert(nv[g + 1].0 == gv[g].0);
                        }
                    } else {
                        assert(nv[p as int].0 == post[x].0);
                    }
                }
            }
        }
        i += 1;
    }
    assert(ev.take(es@.len() as int) == ev);
    gs
}

/// What `report monthly` totals: each selected month with its prices, in
/// increasing month order, and how many transactions were counted.
#[derive(Debug)]
pub struct MonthlyPrices {
    pub months: Vec<(String, Vec<String>)>,
    pub count: usize,
}

/// Select the transactions of the requested period among the files of the
/// transaction directory and group their prices by month.
pub fn run(args: &ReportArgs, docs: &Vec<StoredDoc>) -> (r: MonthlyPrices)
    ensures
        match args.command {
            ReportCommand::Monthly { year, month } => {
                let es = month_entries(docs@, year, month);
                &&& months_of(es, crate::commands::search::group_views(r.months@))
                &&& r.count == es.len()
            },
        },
{
    match &args.command {
        ReportCommand::Monthly { year, month } => {
            let mut es: Vec<(String, String)> = Vec::new();
            let mut i: usize = 0;
            while i < docs.len()
                invariant
                    i <= docs@.len(),
                    crate::commands::search::pair_views(es@) == month_entries(docs@.take(i as int), *year, *month),
                    es@.len() <= i,
                decreases docs.len() - i,
            {
                proof {
                    assert(docs@.take(i + 1).drop_last() == docs@.take(i as int));
                    assert(docs@.take(i + 1).last() == docs@[i as int]);
                }
                match entry_of(&docs[i], *year, *month) {
                    Some(e) => {
                        es.push(e);
                    },
                    None => {},
                }
                i += 1;
            }
            assert(docs@.take(docs@.len() as int) == docs@);
            let months = group_by_month(&es);
            MonthlyPrices { months, count: es.len() }
        },
    }
}

/// The report's lines, given each month's total and the grand total as they
/// are shown (two decimals).
pub open spec fn monthly_lines(
    months: Seq<Seq<char>>,
    totals: Seq<Seq<char>>,
    grand: Seq<char>,
    count: nat,
) -> Seq<Seq<char>> {
    if months.len() == 0 {
        seq!["No transactions found."@]
    } else {
        seq![pad_right("Month"@, 10) + "  "@ + pad_left("Total (RSD)"@, 12), repeat_char('-', 26)]
            + Seq::new(months.len(), |k: int| pad_right(months[k], 10) + "  "@ + pad_left(totals[k], 12))
            + seq![
            repeat_char('-', 26),
            pad_right("TOTAL"@, 10) + "  "@ + pad_left(grand, 12) + "  ("@ + decimal(count) + " items)"@,
        ]
    }
}

fn month_row(label: &str, total: &str) -> (r: String)
    ensures
        r@ == pad_right(label@, 10) + "  "@ + pad_left(total@, 12),
{
    let mut r = String::new();
    push_padded_right(&mut r, label, 10);
    push_str(&mut r, "  ");
    push_padded_left(&mut r, total, 12);
    r
}

/// The monthly report for `months` (their totals in `totals`).
pub fn monthly_listing(months: &Vec<String>, totals: &Vec<String>, grand: &str, count: usize) -> (r: Vec<
    String,
>)
    requires
        totals@.len() == months@.len(),
    ensures
        views(r@) == monthly_lines(views(months@), views(totals@), grand@, count as nat),
{
    let ghost mv = views(months@);
    let ghost tv = views(totals@);
    let mut out: Vec<String> = Vec::new();
    if months.len() == 0 {
        out.push("No transactions found.".to_string());
        return out;
    }
    out.push(month_row("Month", "Total (RSD)"));
    let mut rule = String::new();
    push_repeat(&mut rule, '-', 26);
    out.push(rule);
    let ghost head = views(out@);
    let mut k: usize = 0;
    while k < months.len()
        invariant
            k <= months@.len() == totals@.len(),
            mv == views(months@),
            tv == views(totals@),
            views(out@) == head + Seq::new(
                k as nat,
                |j: int| pad_right(mv[j], 10) + "  "@ + pad_left(tv[j], 12),
            ),
        decreases months.len() - k,
    {
        let row = month_row(months[k].as_str(), totals[k].as_str());
        let ghost before = views(out@);
        out.push(row);
        proof {
            assert(views(out@) == before.push(row@));
            assert(Seq::new((k + 1) as nat, |j: int| pad_right(mv[j], 10) + "  "@ + pad_left(tv[j], 12))
                == Seq::new(k as nat, |j: int| pad_right(mv[j], 10) + "  "@ + pad_left(tv[j], 12)).push(
                pad_right(mv[k as int], 10) + "  "@ + pad_left(tv[k as int], 12),
            ));
        }
        k += 1;
    }
    let mut rule2 = String::new();
    push_repeat(&mut rule2, '-', 26);
    let mut last = month_row("TOTAL", grand);
    push_str(&mut last, "  (");
    push_decimal(&mut last, count as u64);
    push_str(&mut last, " items)");
    let ghost body = views(out@);
    out.push(rule2);
    out.push(last);
    assert(views(out@) == body + seq![rule2@, last@]);
    out
}

} // verus!

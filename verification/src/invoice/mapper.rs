//! Rendering invoices as Markdown transaction files and naming those files.
use vstd::prelude::*;

use crate::invoice::{Invoice, InvoiceItem};
use crate::paths::join_path;
use crate::text::{
    chars_of, decimal, lines, lines_of, push_char, push_decimal, push_str, remove_char, string_of,
    trim, trim_bounds, views,
};

verus! {

// ── Dates ─────────────────────────────────────────────────────────────────────

/// The date with every `-` and `:` removed.
pub open spec fn compacted(date: Seq<char>) -> Seq<char> {
    remove_char(remove_char(date, '-'), ':')
}

fn remove_char_exec(s: &str, c: char) -> (r: String)
    ensures
        r@ == remove_char(s@, c),
{
    let mut r = String::new();
    for ch in it: s.chars()
        invariant
            it.seq() == s@,
            r@ == remove_char(s@.take(it.index() as int), c),
    {
        proof {
            let t = s@.take(it.index() as int + 1);
            assert(t.drop_last() == s@.take(it.index() as int));
            assert(t.last() == ch);
        }
        if ch != c {
            push_char(&mut r, ch);
        }
    }
    assert(s@.take(s@.len() as int) == s@);
    r
}

/// Convert `"YYYY-MM-DDTHH:MM:SS"` → `"YYYYMMDDTHHMMSS"` for use in filenames.
pub fn compact_date(date: &str) -> (r: String)
    ensures
        r@ == compacted(date@),
{
    let a = remove_char_exec(date, '-');
    remove_char_exec(a.as_str(), ':')
}

pub proof fn lemma_remove_char_absent(s: Seq<char>, c: char)
    ensures
        forall|k: int| 0 <= k < remove_char(s, c).len() ==> #[trigger] remove_char(s, c)[k] != c,
        forall|k: int| 0 <= k < remove_char(s, c).len() ==> s.contains(#[trigger] remove_char(s, c)[k]),
    decreases s.len(),
{
    if s.len() > 0 {
        lemma_remove_char_absent(s.drop_last(), c);
        let r = remove_char(s, c);
        assert forall|k: int| 0 <= k < r.len() implies s.contains(#[trigger] r[k]) by {
            if k < remove_char(s.drop_last(), c).len() {
                let x = r[k];
                assert(s.drop_last().contains(x));
                let j = choose|j: int| 0 <= j < s.drop_last().len() && s.drop_last()[j] == x;
                assert(s[j] == x);
            } else {
                assert(r[k] == s.last());
                assert(s[s.len() - 1] == s.last());
            }
        }
    }
}

proof fn lemma_remove_char_noop(s: Seq<char>, c: char)
    requires
        forall|k: int| 0 <= k < s.len() ==> s[k] != c,
    ensures
        remove_char(s, c) == s,
    decreases s.len(),
{
    if s.len() > 0 {
        assert forall|k: int| 0 <= k < s.drop_last().len() implies s.drop_last()[k] != c by {
            assert(s.drop_last()[k] == s[k]);
        }
        lemma_remove_char_noop(s.drop_last(), c);
        assert(s.drop_last().push(s.last()) == s);
    }
}

/// A compacted date holds no `-` or `:`, and compacting it again changes nothing.
pub proof fn lemma_compact_date_idempotent(date: Seq<char>)
    ensures
        forall|k: int|
            0 <= k < compacted(date).len() ==> #[trigger] compacted(date)[k] != '-' && compacted(
                date,
            )[k] != ':',
        compacted(compacted(date)) == compacted(date),
{
    let a = remove_char(date, '-');
    lemma_remove_char_absent(date, '-');
    lemma_remove_char_absent(a, ':');
    let b = remove_char(a, ':');
    assert forall|k: int| 0 <= k < b.len() implies #[trigger] b[k] != '-' by {
        assert(a.contains(b[k]));
    }
    lemma_remove_char_noop(b, '-');
    lemma_remove_char_noop(b, ':');
}

// ── Slugs ─────────────────────────────────────────────────────────────────────

pub open spec fn is_ascii_alnum(c: char) -> bool {
    ('0' <= c && c <= '9') || ('a' <= c && c <= 'z') || ('A' <= c && c <= 'Z')
}

pub open spec fn ascii_lower(c: char) -> char {
    if 'A' <= c && c <= 'Z' {
        ((c as u32) + 32) as char
    } else {
        c
    }
}

/// The slug built so far from `s`, and whether it ends in a separator (true
/// at the start, so leading separators are dropped).
pub open spec fn slug_acc(s: Seq<char>) -> (Seq<char>, bool)
    decreases s.len(),
{
    if s.len() == 0 {
        (seq![], true)
    } else {
        let (slug, prev_sep) = slug_acc(s.drop_last());
        let c = s.last();
        if is_ascii_alnum(c) {
            (slug.push(ascii_lower(c)), false)
        } else if !prev_sep {
            (slug.push('-'), true)
        } else {
            (slug, prev_sep)
        }
    }
}

/// The slug of a text: its trimmed ASCII letters and digits lowercased, every
/// run of other characters between them turned into one `-`.
pub open spec fn slug_of(text: Seq<char>) -> Seq<char> {
    let slug = slug_acc(trim(text)).0;
    if slug.len() > 0 && slug.last() == '-' {
        slug.drop_last()
    } else {
        slug
    }
}

/// A well-formed slug: lowercase ASCII letters, digits and single `-`
/// between them.
pub open spec fn is_slug(s: Seq<char>) -> bool {
    &&& forall|k: int|
        0 <= k < s.len() ==> ('0' <= #[trigger] s[k] && s[k] <= '9') || ('a' <= s[k] && s[k]
            <= 'z') || s[k] == '-'
    &&& s.len() > 0 ==> s[0] != '-' && s.last() != '-'
    &&& forall|k: int| 0 <= k < s.len() - 1 ==> !(#[trigger] s[k] == '-' && s[k + 1] == '-')
}

fn is_ascii_alnum_exec(c: char) -> (b: bool)
    ensures
        b == is_ascii_alnum(c),
{
    ('0' <= c && c <= '9') || ('a' <= c && c <= 'z') || ('A' <= c && c <= 'Z')
}

fn ascii_lower_exec(c: char) -> (d: char)
    ensures
        d == ascii_lower(c),
{
    if 'A' <= c && c <= 'Z' {
        let u = (c as u32) + 32;
        assert(('a' as u32) <= u <= ('z' as u32));
        crate::text::char_from_ascii(u)
    } else {
        c
    }
}

/// Convert an arbitrary string into a lowercase, ASCII-only,
/// hyphen-separated slug.
pub fn slugify(text: &str) -> (r: String)
    ensures
        r@ == slug_of(text@),
        is_slug(r@),
{
    let v = chars_of(text);
    let (lo, hi) = trim_bounds(&v, 0, v.len());
    let ghost t = v@.subrange(lo as int, hi as int);
    assert(v@.subrange(0, v@.len() as int) == v@);
    let mut slug: Vec<char> = Vec::new();
    let mut prev_sep = true;
    let mut i = lo;
    while i < hi
        invariant
            lo <= i <= hi <= v.len(),
            t == v@.subrange(lo as int, hi as int),
            (slug@, prev_sep) == slug_acc(t.take(i - lo)),
            slug_inv(slug@, prev_sep),
        decreases hi - i,
    {
        let ch = v[i];
        proof {
            assert(t.take(i - lo + 1).drop_last() == t.take(i - lo));
            assert(t.take(i - lo + 1).last() == ch);
        }
        if is_ascii_alnum_exec(ch) {
            slug.push(ascii_lower_exec(ch));
            prev_sep = false;
        } else if !prev_sep {
            slug.push('-');
            prev_sep = true;
        }
        i += 1;
    }
    assert(t.take(hi - lo) == t);
    if slug.len() > 0 && slug[slug.len() - 1] == '-' {
        slug.pop();
    }
    let r = string_of(&slug, 0, slug.len());
    assert(slug@.subrange(0, slug@.len() as int) == slug@);
    proof {
        assert(is_slug(r@)) by {
            assert(forall|k: int| 0 <= k < r@.len() ==> #[trigger] r@[k] == slug@[k]);
        }
    }
    r
}

/// What holds of the slug built so far.
pub open spec fn slug_inv(s: Seq<char>, prev_sep: bool) -> bool {
    &&& forall|k: int|
        0 <= k < s.len() ==> ('0' <= #[trigger] s[k] && s[k] <= '9') || ('a' <= s[k] && s[k]
            <= 'z') || s[k] == '-'
    &&& s.len() > 0 ==> s[0] != '-'
    &&& forall|k: int| 0 <= k < s.len() - 1 ==> !(#[trigger] s[k] == '-' && s[k + 1] == '-')
    &&& (s.len() > 0 && s.last() == '-') ==> prev_sep
    &&& s.len() == 0 ==> prev_sep
    &&& (s.len() > 0 && prev_sep) ==> s.last() == '-'
}

proof fn lemma_slug_acc_of_slug(s: Seq<char>, n: int)
    requires
        is_slug(s),
        0 <= n <= s.len(),
    ensures
        slug_acc(s.take(n)) == (s.take(n), n == 0 || s[n - 1] == '-'),
    decreases n,
{
    if n > 0 {
        lemma_slug_acc_of_slug(s, n - 1);
        assert(s.take(n).drop_last() == s.take(n - 1));
        assert(s.take(n).last() == s[n - 1]);
        assert(s.take(n - 1).push(s[n - 1]) == s.take(n));
        if s[n - 1] == '-' {
            assert(n - 1 > 0);
            assert(s[n - 2] != '-');
        }
    }
}

proof fn lemma_slug_no_ws(s: Seq<char>)
    requires
        is_slug(s),
    ensures
        trim(s) == s,
{
    crate::text::lemma_trim_start_none(s);
    crate::text::lemma_trim_end_none(s);
}

proof fn lemma_slug_acc_inv(s: Seq<char>)
    ensures
        slug_inv(slug_acc(s).0, slug_acc(s).1),
    decreases s.len(),
{
    if s.len() > 0 {
        lemma_slug_acc_inv(s.drop_last());
    }
}

/// Every slug is well formed.
pub proof fn lemma_slug_well_formed(text: Seq<char>)
    ensures
        is_slug(slug_of(text)),
{
    let acc = slug_acc(trim(text));
    lemma_slug_acc_inv(trim(text));
    let s = slug_of(text);
    if acc.0.len() > 0 && acc.0.last() == '-' {
        assert forall|k: int| 0 <= k < s.len() implies #[trigger] s[k] == acc.0[k] by {}
        if s.len() > 0 {
            assert(acc.0[s.len() - 1] != '-');
        }
    }
}

/// Slugifying a slug changes nothing.
pub proof fn lemma_slug_idempotent(text: Seq<char>)
    ensures
        slug_of(slug_of(text)) == slug_of(text),
{
    lemma_slug_well_formed(text);
    let s = slug_of(text);
    lemma_slug_no_ws(s);
    lemma_slug_acc_of_slug(s, s.len() as int);
    assert(s.take(s.len() as int) == s);
}

// ── YAML strings ──────────────────────────────────────────────────────────────

/// `c` as written inside a YAML double-quoted string by [`yaml_escape`].
pub open spec fn escaped_char(c: char) -> Seq<char> {
    if c == '\\' {
        seq!['\\', '\\']
    } else if c == '"' {
        seq!['\\', '"']
    } else {
        seq![c]
    }
}

pub open spec fn yaml_escaped(s: Seq<char>) -> Seq<char>
    decreases s.len(),
{
    if s.len() == 0 {
        seq![]
    } else {
        yaml_escaped(s.drop_last()) + escaped_char(s.last())
    }
}

/// Escape backslashes and double-quotes in a YAML double-quoted string value.
pub fn yaml_escape(s: &str) -> (r: String)
    ensures
        r@ == yaml_escaped(s@),
{
    let mut r = String::new();
    for ch in it: s.chars()
        invariant
            it.seq() == s@,
            r@ == yaml_escaped(s@.take(it.index() as int)),
    {
        proof {
            let t = s@.take(it.index() as int + 1);
            assert(t.drop_last() == s@.take(it.index() as int));
            assert(t.last() == ch);
        }
        if ch == '\\' {
            push_char(&mut r, '\\');
            push_char(&mut r, '\\');
        } else if ch == '"' {
            push_char(&mut r, '\\');
            push_char(&mut r, '"');
        } else {
            push_char(&mut r, ch);
        }
    }
    assert(s@.take(s@.len() as int) == s@);
    r
}

// ── Markdown ──────────────────────────────────────────────────────────────────

/// The receipt text with each line indented by four spaces, lines joined by `\n`.
pub open spec fn indented(ls: Seq<Seq<char>>) -> Seq<char>
    decreases ls.len(),
{
    if ls.len() == 0 {
        seq![]
    } else if ls.len() == 1 {
        "    "@ + ls[0]
    } else {
        indented(ls.drop_last()) + "\n"@ + "    "@ + ls.last()
    }
}

/// The Markdown document for one invoice item (YAML front-matter only).
pub open spec fn markdown_text(
    inv: Invoice,
    name: Seq<char>,
    quantity: Seq<char>,
    unit_price: Seq<char>,
    price_total: Seq<char>,
) -> Seq<char> {
    "---\ndate: \""@ + inv.date@ + "\"\nretailer: \""@ + yaml_escaped(inv.retailer@)
        + "\"\nname: \""@ + yaml_escaped(name) + "\"\nquantity: "@ + quantity + "\nunit_price: "@
        + unit_price + "\nprice_total: "@ + price_total + "\ncurrency: "@ + inv.currency@
        + "\ncountry: "@ + inv.country@ + "\nlink: \""@ + inv.url@ + "\"\ntags: []\nnotes: |\n"@
        + indented(lines(inv.raw_bill_text@)) + "\n---\n"@
}

/// The file written for an item holds its invoice's URL: this is how a later
/// run recognises the invoice as already recorded.
pub proof fn lemma_markdown_holds_link(
    inv: Invoice,
    name: Seq<char>,
    quantity: Seq<char>,
    unit_price: Seq<char>,
    price_total: Seq<char>,
)
    ensures
        crate::text::contains_sub(
            markdown_text(inv, name, quantity, unit_price, price_total),
            inv.url@,
        ),
{
    let pre = "---\ndate: \""@ + inv.date@ + "\"\nretailer: \""@ + yaml_escaped(inv.retailer@)
        + "\"\nname: \""@ + yaml_escaped(name) + "\"\nquantity: "@ + quantity + "\nunit_price: "@
        + unit_price + "\nprice_total: "@ + price_total + "\ncurrency: "@ + inv.currency@
        + "\ncountry: "@ + inv.country@ + "\nlink: \""@;
    let post = "\"\ntags: []\nnotes: |\n"@ + indented(lines(inv.raw_bill_text@)) + "\n---\n"@;
    let md = markdown_text(inv, name, quantity, unit_price, price_total);
    assert(md =~= pre + inv.url@ + post);
    assert(md.subrange(pre.len() as int, pre.len() + inv.url@.len() as int) =~= inv.url@);
    assert(crate::text::occurs_at(md, inv.url@, pre.len() as int));
}

/// Build the full Markdown document (YAML front-matter only; body is empty).
pub fn render_markdown(
    invoice: &Invoice,
    item_name: &str,
    quantity: &str,
    unit_price: &str,
    price_total: &str,
) -> (s: String)
    ensures
        s@ == markdown_text(*invoice, item_name@, quantity@, unit_price@, price_total@),
{
    let ls = lines_of(invoice.raw_bill_text.as_str());
    let mut notes = String::new();
    let mut i: usize = 0;
    while i < ls.len()
        invariant
            i <= ls.len(),
            notes@ == indented(views(ls@).take(i as int)),
        decreases ls.len() - i,
    {
        proof {
            assert(views(ls@).take(i + 1).drop_last() == views(ls@).take(i as int));
            assert(views(ls@).take(i + 1).last() == ls@[i as int]@);
        }
        if i > 0 {
            push_str(&mut notes, "\n");
        } else {
            assert(views(ls@).take(1) =~= seq![ls@[0]@]);
        }
        push_str(&mut notes, "    ");
        push_str(&mut notes, ls[i].as_str());
        i += 1;
    }
    assert(views(ls@).take(ls@.len() as int) == views(ls@));
    let mut s = String::new();
    push_str(&mut s, "---\ndate: \"");
    push_str(&mut s, invoice.date.as_str());
    push_str(&mut s, "\"\nretailer: \"");
    let r = yaml_escape(invoice.retailer.as_str());
    push_str(&mut s, r.as_str());
    push_str(&mut s, "\"\nname: \"");
    let n = yaml_escape(item_name);
    push_str(&mut s, n.as_str());
    push_str(&mut s, "\"\nquantity: ");
    push_str(&mut s, quantity);
    push_str(&mut s, "\nunit_price: ");
    push_str(&mut s, unit_price);
    push_str(&mut s, "\nprice_total: ");
    push_str(&mut s, price_total);
    push_str(&mut s, "\ncurrency: ");
    push_str(&mut s, invoice.currency.as_str());
    push_str(&mut s, "\ncountry: ");
    push_str(&mut s, invoice.country.as_str());
    push_str(&mut s, "\nlink: \"");
    push_str(&mut s, invoice.url.as_str());
    push_str(&mut s, "\"\ntags: []\nnotes: |\n");
    push_str(&mut s, notes.as_str());
    push_str(&mut s, "\n---\n");
    s
}

/// The file base name of an item: `<compact date>-<slug of its name>`.
pub open spec fn item_base(date: Seq<char>, name: Seq<char>) -> Seq<char> {
    compacted(date) + "-"@ + slug_of(name)
}

/// `<compact date>-<slug of name>`.
pub fn item_base_name(date: &str, name: &str) -> (r: String)
    ensures
        r@ == item_base(date@, name@),
{
    let mut r = compact_date(date);
    push_str(&mut r, "-");
    let s = slugify(name);
    push_str(&mut r, s.as_str());
    r
}

/// The dry-run listing of an invoice: per item a `# filename:` line and the
/// item's Markdown.
pub open spec fn listing_text(inv: Invoice, n: int) -> Seq<char>
    decreases n,
{
    if n <= 0 {
        seq![]
    } else {
        let item = inv.items@[n - 1];
        listing_text(inv, n - 1) + "# filename: "@ + item_base(inv.date@, item.name@) + ".md\n"@
            + markdown_text(inv, item.name@, item.quantity@, item.unit_price@, item.total@)
    }
}

/// The text `print_to_stdout` shows for a dry run: one Markdown block per
/// item, each under a `# filename:` line.
pub fn print_to_stdout(invoice: &Invoice) -> (s: String)
    ensures
        s@ == listing_text(*invoice, invoice.items@.len() as int),
{
    let mut s = String::new();
    let mut i: usize = 0;
    while i < invoice.items.len()
        invariant
            i <= invoice.items.len(),
            s@ == listing_text(*invoice, i as int),
        decreases invoice.items.len() - i,
    {
        let item: &InvoiceItem = &invoice.items[i];
        push_str(&mut s, "# filename: ");
        let base = item_base_name(invoice.date.as_str(), item.name.as_str());
        push_str(&mut s, base.as_str());
        push_str(&mut s, ".md\n");
        let md = render_markdown(
            invoice,
            item.name.as_str(),
            item.quantity.as_str(),
            item.unit_price.as_str(),
            item.total.as_str(),
        );
        push_str(&mut s, md.as_str());
        i += 1;
    }
    s
}

// ── Collision-free names ──────────────────────────────────────────────────────

/// `n` written with at least two digits (`{n:02}`).
pub open spec fn pad2(n: nat) -> Seq<char> {
    if n < 10 {
        seq!['0'] + decimal(n)
    } else {
        decimal(n)
    }
}

/// The `n`-th candidate file name: `base.ext`, then `base-01.ext`, `base-02.ext`, …
pub open spec fn candidate(base: Seq<char>, ext: Seq<char>, n: nat) -> Seq<char> {
    if n == 0 {
        base + "."@ + ext
    } else {
        base + "-"@ + pad2(n) + "."@ + ext
    }
}

/// `dir` joined with `name` (`Path::join`): an absolute name replaces the
/// directory; otherwise a `/` separates them unless `dir` is empty or ends in one.
pub open spec fn in_names(names: Seq<String>, x: Seq<char>) -> bool {
    exists|i: int| 0 <= i < names.len() && #[trigger] names[i]@ == x
}

proof fn lemma_decimal_facts(n: nat)
    ensures
        decimal(n).len() >= 1,
        n >= 10 ==> decimal(n).len() >= 2,
        n >= 1 ==> decimal(n)[0] != '0',
        n < 10 ==> decimal(n).len() == 1,
    decreases n,
{
    if n >= 10 {
        lemma_decimal_facts(n / 10);
        assert(decimal(n)[0] == decimal(n / 10)[0]);
    }
}

proof fn lemma_digit_injective(a: int, b: int)
    requires
        0 <= a < 10,
        0 <= b < 10,
        crate::text::digit(a) == crate::text::digit(b),
    ensures
        a == b,
{
}

proof fn lemma_decimal_injective(n: nat, m: nat)
    requires
        decimal(n) == decimal(m),
    ensures
        n == m,
    decreases n,
{
    lemma_decimal_facts(n);
    lemma_decimal_facts(m);
    if n < 10 && m < 10 {
        assert(decimal(n)[0] == decimal(m)[0]);
        lemma_digit_injective(n as int, m as int);
    } else if n >= 10 && m >= 10 {
        let dn = decimal(n);
        let dm = decimal(m);
        assert(dn.drop_last() == decimal(n / 10));
        assert(dm.drop_last() == decimal(m / 10));
        lemma_decimal_injective(n / 10, m / 10);
        assert(dn.last() == dm.last());
        lemma_digit_injective((n % 10) as int, (m % 10) as int);
    }
}

proof fn lemma_pad2_injective(n: nat, m: nat)
    requires
        pad2(n) == pad2(m),
    ensures
        n == m,
{
    lemma_decimal_facts(n);
    lemma_decimal_facts(m);
    if n < 10 && m < 10 {
        assert(pad2(n).drop_first() == decimal(n));
        assert(pad2(m).drop_first() == decimal(m));
        lemma_decimal_injective(n, m);
    } else if n >= 10 && m >= 10 {
        lemma_decimal_injective(n, m);
    } else if n < 10 {
        assert(pad2(n)[0] == '0');
        assert(pad2(m)[0] == decimal(m)[0]);
    } else {
        assert(pad2(m)[0] == '0');
        assert(pad2(n)[0] == decimal(n)[0]);
    }
}

/// Distinct candidates have distinct names.
pub proof fn lemma_candidate_injective(base: Seq<char>, ext: Seq<char>, n: nat, m: nat)
    requires
        candidate(base, ext, n) == candidate(base, ext, m),
    ensures
        n == m,
{
    let cn = candidate(base, ext, n);
    let cm = candidate(base, ext, m);
    lemma_decimal_facts(n);
    lemma_decimal_facts(m);
    reveal_strlit("-");
    reveal_strlit(".");
    if n != 0 && m != 0 {
        let b: int = base.len() as int + 1;
        assert(cn.len() == cm.len());
        assert(pad2(n).len() == pad2(m).len());
        assert(cn.subrange(b, b + pad2(n).len()) == pad2(n));
        assert(cm.subrange(b, b + pad2(m).len()) == pad2(m));
        lemma_pad2_injective(n, m);
    } else if n == 0 && m != 0 {
        assert(cn.len() < cm.len());
    } else if n != 0 && m == 0 {
        assert(cm.len() < cn.len());
    }
}

fn push_pad2(s: &mut String, n: u64)
    ensures
        final(s)@ == old(s)@ + pad2(n as nat),
{
    if n < 10 {
        push_char(s, '0');
    }
    push_decimal(s, n);
}

fn candidate_exec(base: &str, ext: &str, n: u64) -> (r: String)
    ensures
        r@ == candidate(base@, ext@, n as nat),
{
    let mut r = String::new();
    push_str(&mut r, base);
    if n != 0 {
        push_str(&mut r, "-");
        push_pad2(&mut r, n);
    }
    push_str(&mut r, ".");
    push_str(&mut r, ext);
    r
}

/// `name` is the first candidate for `base`/`ext` that is not taken.
pub open spec fn first_free(base: Seq<char>, ext: Seq<char>, taken: Seq<String>, name: Seq<char>) -> bool {
    exists|k: nat|
        name == candidate(base, ext, k) && !in_names(taken, candidate(base, ext, k)) && forall|
            m: nat,
        | m < k ==> in_names(taken, #[trigger] candidate(base, ext, m))
}

/// Return a path in `dir` whose filename `{base}.{ext}` is not among the
/// names `taken` there; appends `-01`, `-02`, … until a free slot is found.
pub fn unique_path(dir: &str, base: &str, ext: &str, taken: &Vec<String>) -> (r: String)
    ensures
        exists|name: Seq<char>| first_free(base@, ext@, taken@, name) && r@ == join_path(dir@, name),
{
    let name = unique_name(base, ext, taken);
    crate::paths::join(dir, name.as_str())
}

/// The first file name `{base}.{ext}`, `{base}-01.{ext}`, … not among `taken`.
pub fn unique_name(base: &str, ext: &str, taken: &Vec<String>) -> (r: String)
    ensures
        first_free(base@, ext@, taken@, r@),
{
    let mut remaining: Vec<String> = taken.clone();
    let mut n: usize = 0;
    proof {
        assert forall|i: int| 0 <= i < taken@.len() implies in_names(remaining@, #[trigger] taken@[i]@) by {
            assert(remaining@[i] == taken@[i]);
        }
    }
    loop
        invariant
            n + remaining@.len() <= taken@.len(),
            forall|m: nat| m < n ==> in_names(taken@, #[trigger] candidate(base@, ext@, m)),
            forall|i: int, m: nat|
                0 <= i < remaining@.len() && m < n ==> #[trigger] remaining@[i]@ != #[trigger] candidate(
                    base@,
                    ext@,
                    m,
                ),
            forall|i: int|
                0 <= i < taken@.len() ==> in_names(remaining@, #[trigger] taken@[i]@) || exists|
                    m: nat,
                | m < n && taken@[i]@ == #[trigger] candidate(base@, ext@, m),
        decreases remaining@.len(),
    {
        let cand = candidate_exec(base, ext, n as u64);
        let mut found = false;
        let mut i: usize = 0;
        while i < taken.len()
            invariant
                i <= taken@.len(),
                found == exists|j: int| 0 <= j < i && #[trigger] taken@[j]@ == cand@,
            decreases taken.len() - i,
        {
            if crate::text::str_eq(taken[i].as_str(), cand.as_str()) {
                found = true;
            }
            i += 1;
        }
        if !found {
            proof {
                assert(!in_names(taken@, candidate(base@, ext@, n as nat)));
            }
            return cand;
        }
        let ghost j = choose|j: int| 0 <= j < taken@.len() && #[trigger] taken@[j]@ == cand@;
        proof {
            if !in_names(remaining@, taken@[j]@) {
                let m = choose|m: nat| m < n && taken@[j]@ == #[trigger] candidate(base@, ext@, m);
                lemma_candidate_injective(base@, ext@, m, n as nat);
            }
        }
        let mut next: Vec<String> = Vec::new();
        let mut k: usize = 0;
        let ghost mut dropped = false;
        while k < remaining.len()
            invariant
                k <= remaining@.len(),
                next@.len() + (if dropped { 1int } else { 0int }) <= k,
                dropped == exists|q: int| 0 <= q < k && #[trigger] remaining@[q]@ == cand@,
                forall|q: int| 0 <= q < next@.len() ==> #[trigger] next@[q]@ != cand@,
                forall|q: int|
                    #![trigger next@[q]]
                    0 <= q < next@.len() ==> exists|p: int|
                        0 <= p < k && #[trigger] remaining@[p] == next@[q],
                forall|p: int|
                    0 <= p < k && remaining@[p]@ != cand@ ==> in_names(next@, #[trigger] remaining@[p]@),
            decreases remaining.len() - k,
        {
            if crate::text::str_eq(remaining[k].as_str(), cand.as_str()) {
                proof {
                    dropped = true;
                }
            } else {
                let ghost old_next = next@;
                next.push(remaining[k].clone());
                proof {
                    let q = next@.len() - 1;
                    assert(next@[q]@ == remaining@[k as int]@);
                    assert forall|p: int|
                        0 <= p < k + 1 && remaining@[p]@ != cand@ implies in_names(
                        next@,
                        #[trigger] remaining@[p]@,
                    ) by {
                        if p == k {
                            assert(next@[q]@ == remaining@[p]@);
                        } else {
                            let i = choose|i: int|
                                0 <= i < old_next.len() && #[trigger] old_next[i]@ == remaining@[p]@;
                            assert(next@[i] == old_next[i]);
                        }
                    }
                }
            }
            k += 1;
        }
        proof {
            assert(dropped);
            assert forall|i: int, m: nat| 0 <= i < next@.len() && m < n + 1 implies #[trigger] next@[i]@
                != #[trigger] candidate(base@, ext@, m) by {
                let p = choose|p: int| 0 <= p < remaining@.len() && #[trigger] remaining@[p] == next@[i];
                if m < n {
                    assert(remaining@[p]@ != candidate(base@, ext@, m));
                }
            }
            assert forall|i: int| 0 <= i < taken@.len() implies in_names(next@, #[trigger] taken@[i]@) || exists|
                m: nat,
            | m < n + 1 && taken@[i]@ == #[trigger] candidate(base@, ext@, m) by {
                if in_names(remaining@, taken@[i]@) {
                    let p = choose|p: int| 0 <= p < remaining@.len() && #[trigger] remaining@[p]@ == taken@[i]@;
                    if remaining@[p]@ == cand@ {
                        assert(taken@[i]@ == candidate(base@, ext@, n as nat));
                    } else {
                        assert(in_names(next@, remaining@[p]@));
                    }
                } else {
                    let m = choose|m: nat| m < n && taken@[i]@ == #[trigger] candidate(base@, ext@, m);
                    assert(m < n + 1);
                }
            }
            assert forall|m: nat| m < n + 1 implies in_names(taken@, #[trigger] candidate(base@, ext@, m)) by {
                if m == n {
                    assert(taken@[j]@ == candidate(base@, ext@, m));
                }
            }
        }
        remaining = next;
        n += 1;
    }
}

/// The files an invoice is saved as: per item, in order, the first free name
/// for its base among `taken` and the names chosen for the items before it,
/// and its Markdown.
pub open spec fn planned_files(inv: Invoice, taken: Seq<String>, files: Seq<(String, String)>) -> bool {
    &&& files.len() == inv.items@.len()
    &&& forall|i: int|
        0 <= i < files.len() ==> {
            let item = #[trigger] inv.items@[i];
            &&& first_free(
                item_base(inv.date@, item.name@),
                "md"@,
                taken + files.take(i).map_values(|f: (String, String)| f.0),
                files[i].0@,
            )
            &&& files[i].1@ == markdown_text(
                inv,
                item.name@,
                item.quantity@,
                item.unit_price@,
                item.total@,
            )
        }
}

/// Name and render one file per item of `invoice`, avoiding the names in
/// `taken` and each other.
pub fn plan_item_files(invoice: &Invoice, taken: Vec<String>) -> (files: Vec<(String, String)>)
    ensures
        planned_files(*invoice, taken@, files@),
{
    let ghost taken0 = taken@;
    let mut used = taken;
    let mut files: Vec<(String, String)> = Vec::new();
    let mut i: usize = 0;
    while i < invoice.items.len()
        invariant
            i <= invoice.items@.len(),
            files@.len() == i,
            used@ == taken0 + files@.map_values(|f: (String, String)| f.0),
            forall|j: int|
                0 <= j < i ==> {
                    let item = #[trigger] invoice.items@[j];
                    &&& first_free(
                        item_base(invoice.date@, item.name@),
                        "md"@,
                        taken0 + files@.take(j).map_values(|f: (String, String)| f.0),
                        files@[j].0@,
                    )
                    &&& files@[j].1@ == markdown_text(
                        *invoice,
                        item.name@,
                        item.quantity@,
                        item.unit_price@,
                        item.total@,
                    )
                },
        decreases invoice.items.len() - i,
    {
        let item = &invoice.items[i];
        let base = item_base_name(invoice.date.as_str(), item.name.as_str());
        let name = unique_name(base.as_str(), "md", &used);
        let md = render_markdown(
            invoice,
            item.name.as_str(),
            item.quantity.as_str(),
            item.unit_price.as_str(),
            item.total.as_str(),
        );
        let ghost before = files@;
        used.push(name.clone());
        files.push((name, md));
        proof {
            assert(files@.take(i as int) == before);
            assert forall|j: int| 0 <= j < i + 1 implies {
                let item = #[trigger] invoice.items@[j];
                &&& first_free(
                    item_base(invoice.date@, item.name@),
                    "md"@,
                    taken0 + files@.take(j).map_values(|f: (String, String)| f.0),
                    files@[j].0@,
                )
                &&& files@[j].1@ == markdown_text(
                    *invoice,
                    item.name@,
                    item.quantity@,
                    item.unit_price@,
                    item.total@,
                )
            } by {
                if j < i {
                    assert(files@.take(j) == before.take(j));
                    assert(files@[j] == before[j]);
                }
            }
            assert(files@.map_values(|f: (String, String)| f.0) =~= before.map_values(
                |f: (String, String)| f.0,
            ).push(files@[i as int].0));
        }
        i += 1;
    }
    assert(files@.take(files@.len() as int) == files@);
    files
}

} // verus!

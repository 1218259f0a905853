//! What `insert` writes for an item, read back the way `report monthly`
//! reads it.
use vstd::prelude::*;

use crate::commands::report::{date_and_price, scan_line, scan_lines};
use crate::commands::validate::front_block;
use crate::invoice::mapper::{escaped_char, markdown_text, yaml_escaped};
use crate::invoice::Invoice;
use crate::text::{
    find_from, float_text, is_ws, lines, occurs_at, starts_with, strip_cr, strip_leading,
    strip_trailing, trim, trim_end, trim_matches, trim_start,
};

verus! {

/// No three dashes in a row in `s`: nothing in it can end a front-matter
/// block.
pub open spec fn no_dash_run(s: Seq<char>) -> bool {
    forall|k: int| 0 <= k && k + 3 <= s.len() ==> !#[trigger] dash_run_at(s, k)
}

/// Three dashes start at position `k` of `s`.
pub open spec fn dash_run_at(s: Seq<char>, k: int) -> bool {
    s[k] == '-' && s[k + 1] == '-' && s[k + 2] == '-'
}

/// `s` has no dash, newline or carriage return: it stays on its line.
pub open spec fn plain_field(s: Seq<char>) -> bool {
    forall|k: int| 0 <= k < s.len() ==> s[k] != '-' && s[k] != '\n' && s[k] != '\r'
}

proof fn lemma_plain_no_run(s: Seq<char>)
    requires
        plain_field(s),
    ensures
        no_dash_run(s),
{
    assert forall|k: int| 0 <= k && k + 3 <= s.len() implies !#[trigger] dash_run_at(s, k) by {
        assert(s[k] != '-');
    }
}

proof fn lemma_no_dash_run_concat(a: Seq<char>, b: Seq<char>)
    requires
        no_dash_run(a),
        no_dash_run(b),
        (a.len() > 0 && a.last() != '-') || (b.len() > 0 && b[0] != '-'),
    ensures
        no_dash_run(a + b),
{
    let s = a + b;
    assert forall|k: int| 0 <= k && k + 3 <= s.len() implies !#[trigger] dash_run_at(s, k) by {
        if k + 3 <= a.len() {
            assert(!dash_run_at(a, k));
            assert(s[k] == a[k] && s[k + 1] == a[k + 1] && s[k + 2] == a[k + 2]);
        } else if k >= a.len() {
            assert(!dash_run_at(b, k - a.len()));
            assert(s[k] == b[k - a.len()] && s[k + 1] == b[k + 1 - a.len()] && s[k + 2] == b[k + 2
                - a.len()]);
        } else {
            if a.len() > 0 && a.last() != '-' {
                assert(s[a.len() - 1] == a.last());
            } else {
                assert(s[a.len() as int] == b[0]);
            }
        }
    }
}

/// A line with no newline and no trailing carriage return comes out of
/// `lines` as it is, before the lines of what follows it.
proof fn lemma_lines_cons(u: Seq<char>, r: Seq<char>)
    requires
        forall|k: int| 0 <= k < u.len() ==> u[k] != '\n',
        u.len() == 0 || u.last() != '\r',
    ensures
        lines(u + seq!['\n'] + r) == seq![u] + lines(r),
{
    let s = u + seq!['\n'] + r;
    assert forall|k: int| 0 <= k < u.len() implies s[k] != '\n' by {
        assert(s[k] == u[k]);
    }
    assert(s[u.len() as int] == '\n');
    crate::text::lemma_find_char_at(s, '\n', u.len() as int);
    assert(s.take(u.len() as int) =~= u);
    assert(s.skip(u.len() as int + 1) =~= r);
    assert(strip_cr(u) == u);
}

/// Trimming keeps the first character when it is not whitespace.
proof fn lemma_trim_first(s: Seq<char>)
    requires
        s.len() > 0,
        !is_ws(s[0]),
    ensures
        trim(s).len() > 0,
        trim(s)[0] == s[0],
{
    assert(trim_start(s) == s);
    lemma_trim_end_first(s);
}

proof fn lemma_trim_end_first(s: Seq<char>)
    requires
        s.len() > 0,
        !is_ws(s[0]),
    ensures
        trim_end(s).len() > 0,
        trim_end(s)[0] == s[0],
    decreases s.len(),
{
    if s.len() > 1 && is_ws(s.last()) {
        lemma_trim_end_first(s.drop_last());
    }
}

/// Trimming leaves a text alone whose ends are not whitespace.
proof fn lemma_trim_ends(s: Seq<char>)
    requires
        s.len() > 0,
        !is_ws(s[0]),
        !is_ws(s.last()),
    ensures
        trim(s) == s,
{
    assert(trim_start(s) == s);
    assert(trim_end(s) == s);
}

proof fn lemma_escaped_plain(s: Seq<char>)
    requires
        plain_field(s),
    ensures
        plain_field(yaml_escaped(s)),
    decreases s.len(),
{
    if s.len() > 0 {
        let p = s.drop_last();
        assert forall|k: int| 0 <= k < p.len() implies p[k] != '-' && p[k] != '\n' && p[k] != '\r' by {
            assert(p[k] == s[k]);
        }
        lemma_escaped_plain(p);
        let c = s.last();
        assert(s[s.len() - 1] == c);
        let e = escaped_char(c);
        assert forall|k: int| 0 <= k < e.len() implies e[k] != '-' && e[k] != '\n' && e[k] != '\r' by {}
        let a = yaml_escaped(p);
        assert forall|k: int| 0 <= k < (a + e).len() implies (a + e)[k] != '-' && (a + e)[k] != '\n'
            && (a + e)[k] != '\r' by {
            if k < a.len() {
                assert((a + e)[k] == a[k]);
            } else {
                assert((a + e)[k] == e[k - a.len()]);
            }
        }
    }
}

/// The text an item's file holds between its opening `---` and its
/// `currency` line: an empty line, then the date, retailer, name, quantity,
/// unit price and price total lines, each ended by a newline.
pub open spec fn head_text(
    date: Seq<char>,
    retailer: Seq<char>,
    name: Seq<char>,
    quantity: Seq<char>,
    unit_price: Seq<char>,
    price_total: Seq<char>,
) -> Seq<char> {
    seq!['\n'] + ("date: \""@ + date + "\""@) + seq!['\n'] + ("retailer: \""@ + retailer + "\""@) + seq![
        '\n',
    ] + ("name: \""@ + name + "\""@) + seq!['\n'] + ("quantity: "@ + quantity) + seq!['\n'] + (
    "unit_price: "@ + unit_price) + seq!['\n'] + ("price_total: "@ + price_total) + seq!['\n']
}

proof fn lemma_split_open()
    ensures
        "---\ndate: \""@ == "---"@ + seq!['\n'] + "date: \""@,
{
    reveal_strlit("---\ndate: \"");
    reveal_strlit("---");
    reveal_strlit("date: \"");
    assert("---\ndate: \""@ =~= "---"@ + seq!['\n'] + "date: \""@);
}

proof fn lemma_split_retailer()
    ensures
        "\"\nretailer: \""@ == "\""@ + seq!['\n'] + "retailer: \""@,
{
    reveal_strlit("\"\nretailer: \"");
    reveal_strlit("\"");
    reveal_strlit("retailer: \"");
    assert("\"\nretailer: \""@ =~= "\""@ + seq!['\n'] + "retailer: \""@);
}

proof fn lemma_split_name()
    ensures
        "\"\nname: \""@ == "\""@ + seq!['\n'] + "name: \""@,
{
    reveal_strlit("\"\nname: \"");
    reveal_strlit("\"");
    reveal_strlit("name: \"");
    assert("\"\nname: \""@ =~= "\""@ + seq!['\n'] + "name: \""@);
}

proof fn lemma_split_quantity()
    ensures
        "\"\nquantity: "@ == "\""@ + seq!['\n'] + "quantity: "@,
{
    reveal_strlit("\"\nquantity: ");
    reveal_strlit("\"");
    reveal_strlit("quantity: ");
    assert("\"\nquantity: "@ =~= "\""@ + seq!['\n'] + "quantity: "@);
}

proof fn lemma_split_unit()
    ensures
        "\nunit_price: "@ == seq!['\n'] + "unit_price: "@,
{
    reveal_strlit("\nunit_price: ");
    reveal_strlit("unit_price: ");
    assert("\nunit_price: "@ =~= seq!['\n'] + "unit_price: "@);
}

proof fn lemma_split_total()
    ensures
        "\nprice_total: "@ == seq!['\n'] + "price_total: "@,
{
    reveal_strlit("\nprice_total: ");
    reveal_strlit("price_total: ");
    assert("\nprice_total: "@ =~= seq!['\n'] + "price_total: "@);
}

proof fn lemma_split_currency()
    ensures
        "\ncurrency: "@ == seq!['\n'] + "currency: "@,
{
    reveal_strlit("\ncurrency: ");
    reveal_strlit("currency: ");
    assert("\ncurrency: "@ =~= seq!['\n'] + "currency: "@);
}

/// An item's file is `---`, its head, then the rest.
#[verifier::rlimit(100)]
proof fn lemma_item_split(
    inv: Invoice,
    name: Seq<char>,
    quantity: Seq<char>,
    unit_price: Seq<char>,
    price_total: Seq<char>,
) -> (rest: Seq<char>)
    ensures
        markdown_text(inv, name, quantity, unit_price, price_total) == "---"@ + head_text(
            inv.date@,
            yaml_escaped(inv.retailer@),
            yaml_escaped(name),
            quantity,
            unit_price,
            price_total,
        ) + rest,
{
    lemma_split_open();
    lemma_split_retailer();
    lemma_split_name();
    lemma_split_quantity();
    lemma_split_unit();
    lemma_split_total();
    lemma_split_currency();
    let r = yaml_escaped(inv.retailer@);
    let n = yaml_escaped(name);
    let md = markdown_text(inv, name, quantity, unit_price, price_total);
    assert(md == "---\ndate: \""@ + inv.date@ + "\"\nretailer: \""@ + r + "\"\nname: \""@ + n
        + "\"\nquantity: "@ + quantity + "\nunit_price: "@ + unit_price + "\nprice_total: "@
        + price_total + "\ncurrency: "@ + (inv.currency@ + "\ncountry: "@ + inv.country@ + "\nlink: \""@
        + inv.url@ + "\"\ntags: []\nnotes: |\n"@ + crate::invoice::mapper::indented(
        lines(inv.raw_bill_text@),
    ) + "\n---\n"@)) by {
        let tl = inv.currency@ + "\ncountry: "@ + inv.country@ + "\nlink: \""@ + inv.url@
            + "\"\ntags: []\nnotes: |\n"@ + crate::invoice::mapper::indented(lines(inv.raw_bill_text@))
            + "\n---\n"@;
        assert(md =~= ("---\ndate: \""@ + inv.date@ + "\"\nretailer: \""@ + r + "\"\nname: \""@ + n
            + "\"\nquantity: "@ + quantity + "\nunit_price: "@ + unit_price + "\nprice_total: "@
            + price_total + "\ncurrency: "@) + tl);
    }
    assert(md =~= "---"@ + head_text(inv.date@, r, n, quantity, unit_price, price_total) + ("currency: "@
        + (inv.currency@ + "\ncountry: "@ + inv.country@ + "\nlink: \""@ + inv.url@
        + "\"\ntags: []\nnotes: |\n"@ + crate::invoice::mapper::indented(lines(inv.raw_bill_text@))
        + "\n---\n"@)));
    "currency: "@ + (inv.currency@ + "\ncountry: "@ + inv.country@ + "\nlink: \""@ + inv.url@
        + "\"\ntags: []\nnotes: |\n"@ + crate::invoice::mapper::indented(lines(inv.raw_bill_text@))
        + "\n---\n"@)
}

/// Facts about the literal pieces of an item's head.
proof fn lemma_head_literals()
    ensures
        plain_field("date: \""@) && "date: \""@.len() == 7 && "date: \""@[0] == 'd' && "date: \""@.last()
            == '"',
        plain_field("\""@) && "\""@ == seq!['"'],
        plain_field("retailer: \""@) && "retailer: \""@.len() > 0 && "retailer: \""@[0] == 'r'
            && "retailer: \""@.last() == '"',
        plain_field("name: \""@) && "name: \""@.len() > 0 && "name: \""@[0] == 'n' && "name: \""@.last()
            == '"',
        plain_field("quantity: "@) && "quantity: "@.len() > 0 && "quantity: "@[0] == 'q'
            && "quantity: "@.last() == ' ',
        plain_field("unit_price: "@) && "unit_price: "@.len() > 0 && "unit_price: "@[0] == 'u'
            && "unit_price: "@.last() == ' ',
        plain_field("price_total: "@) && "price_total: "@.len() == 13 && "price_total: "@[0] == 'p'
            && "price_total: "@.last() == ' ',
        "date:"@.len() == 5 && "date:"@[0] == 'd',
        "price_total:"@.len() == 12 && "price_total:"@[0] == 'p',
        "date: \""@.take(5) == "date:"@,
        "price_total: "@.take(12) == "price_total:"@,
        "date: \""@.skip(5) == seq![' ', '"'],
        "price_total: "@.skip(12) == seq![' '],
        "---"@ == seq!['-', '-', '-'],
{
    reveal_strlit("date: \"");
    reveal_strlit("\"");
    reveal_strlit("retailer: \"");
    reveal_strlit("name: \"");
    reveal_strlit("quantity: ");
    reveal_strlit("unit_price: ");
    reveal_strlit("price_total: ");
    reveal_strlit("date:");
    reveal_strlit("price_total:");
    reveal_strlit("---");
    assert("date: \""@.take(5) =~= "date:"@);
    assert("price_total: "@.take(12) =~= "price_total:"@);
    assert("date: \""@.skip(5) =~= seq![' ', '"']);
    assert("price_total: "@.skip(12) =~= seq![' ']);
    assert("\""@ =~= seq!['"']);
    assert("---"@ =~= seq!['-', '-', '-']);
}

/// What an item's date may hold for it to read back as written: something,
/// on one line, with no quotes and no run of three dashes.
pub open spec fn plain_date(d: Seq<char>) -> bool {
    &&& d.len() > 0
    &&& no_dash_run(d)
    &&& forall|k: int|
        0 <= k < d.len() ==> d[k] != '\n' && d[k] != '\r' && d[k] != '"' && d[k] != '\''
}

/// What an item's total may hold to read back as written: a number with no
/// whitespace or dash.
pub open spec fn plain_total(t: Seq<char>) -> bool {
    &&& t.len() > 0
    &&& plain_field(t)
    &&& float_text(t)
    &&& forall|k: int| 0 <= k < t.len() ==> !is_ws(t[k])
}

proof fn lemma_head_no_dash_run(d: Seq<char>, r: Seq<char>, n: Seq<char>, q: Seq<char>, u: Seq<char>, t: Seq<char>)
    requires
        plain_date(d),
        plain_field(r),
        plain_field(n),
        plain_field(q),
        plain_field(u),
        plain_field(t),
    ensures
        no_dash_run(head_text(d, r, n, q, u, t)),
        head_text(d, r, n, q, u, t).last() == '\n',
{
    lemma_head_literals();
    let nl = seq!['\n'];
    assert(no_dash_run(nl));
    lemma_plain_no_run(r);
    lemma_plain_no_run(n);
    lemma_plain_no_run(q);
    lemma_plain_no_run(u);
    lemma_plain_no_run(t);
    lemma_plain_no_run("date: \""@);
    lemma_plain_no_run("\""@);
    lemma_plain_no_run("retailer: \""@);
    lemma_plain_no_run("name: \""@);
    lemma_plain_no_run("quantity: "@);
    lemma_plain_no_run("unit_price: "@);
    lemma_plain_no_run("price_total: "@);
    let l1a = "date: \""@ + d;
    lemma_no_dash_run_concat("date: \""@, d);
    lemma_no_dash_run_concat(l1a, "\""@);
    let l1 = l1a + "\""@;
    lemma_no_dash_run_concat("retailer: \""@, r);
    lemma_no_dash_run_concat("retailer: \""@ + r, "\""@);
    let l2 = "retailer: \""@ + r + "\""@;
    lemma_no_dash_run_concat("name: \""@, n);
    lemma_no_dash_run_concat("name: \""@ + n, "\""@);
    let l3 = "name: \""@ + n + "\""@;
    lemma_no_dash_run_concat("quantity: "@, q);
    let l4 = "quantity: "@ + q;
    lemma_no_dash_run_concat("unit_price: "@, u);
    let l5 = "unit_price: "@ + u;
    lemma_no_dash_run_concat("price_total: "@, t);
    let l6 = "price_total: "@ + t;
    let a1 = nl + l1;
    lemma_no_dash_run_concat(nl, l1);
    lemma_no_dash_run_concat(a1, nl);
    let a2 = a1 + nl + l2;
    lemma_no_dash_run_concat(a1 + nl, l2);
    lemma_no_dash_run_concat(a2, nl);
    let a3 = a2 + nl + l3;
    lemma_no_dash_run_concat(a2 + nl, l3);
    lemma_no_dash_run_concat(a3, nl);
    let a4 = a3 + nl + l4;
    lemma_no_dash_run_concat(a3 + nl, l4);
    lemma_no_dash_run_concat(a4, nl);
    let a5 = a4 + nl + l5;
    lemma_no_dash_run_concat(a4 + nl, l5);
    lemma_no_dash_run_concat(a5, nl);
    let a6 = a5 + nl + l6;
    lemma_no_dash_run_concat(a5 + nl, l6);
    lemma_no_dash_run_concat(a6, nl);
    assert(head_text(d, r, n, q, u, t) == a6 + nl);
}

/// The front-matter block of a text that opens with `---` and then `head`
/// (no run of three dashes, ending in a newline) starts with `head`.
proof fn lemma_block_starts(head: Seq<char>, rest: Seq<char>) -> (x: Seq<char>)
    requires
        no_dash_run(head),
        head.len() > 0,
        head.last() == '\n',
    ensures
        front_block("---"@ + head + rest) == Some(head + x),
{
    lemma_head_literals();
    let md = "---"@ + head + rest;
    assert(crate::text::starts_with(md, "---"@)) by {
        assert(md.take(3) =~= "---"@);
    }
    crate::text::lemma_find_from_facts(md, "---"@, 3);
    match find_from(md, "---"@, 3) {
        Some(j) => {
            assert(occurs_at(md, "---"@, j));
            assert(md.subrange(j, j + 3) == seq!['-', '-', '-']);
            assert(md[j] == '-' && md[j + 1] == '-' && md[j + 2] == '-') by {
                assert(md.subrange(j, j + 3)[0] == md[j]);
                assert(md.subrange(j, j + 3)[1] == md[j + 1]);
                assert(md.subrange(j, j + 3)[2] == md[j + 2]);
            }
            if j < 3 + head.len() {
                if j + 3 <= 3 + head.len() {
                    assert(md[j] == head[j - 3] && md[j + 1] == head[j - 2] && md[j + 2] == head[j - 1]);
                    assert(!dash_run_at(head, j - 3));
                } else {
                    let e = 3 + head.len() - 1;
                    assert(md[e] == head.last());
                }
            }
            let x = rest.take(j - 3 - head.len());
            assert(md.subrange(3, j) =~= head + x);
            x
        },
        None => {
            assert(md.skip(3) =~= head + rest);
            rest
        },
    }
}

/// `s` stays on one line.
pub open spec fn one_line(s: Seq<char>) -> bool {
    forall|k: int| 0 <= k < s.len() ==> s[k] != '\n' && s[k] != '\r'
}

proof fn lemma_one_line_concat(a: Seq<char>, b: Seq<char>)
    requires
        one_line(a),
        one_line(b),
    ensures
        one_line(a + b),
{
    assert forall|k: int| 0 <= k < (a + b).len() implies (a + b)[k] != '\n' && (a + b)[k] != '\r' by {
        if k < a.len() {
            assert((a + b)[k] == a[k]);
        } else {
            assert((a + b)[k] == b[k - a.len()]);
        }
    }
}

/// The head's lines, as `lines` splits them.
pub open spec fn head_lines(d: Seq<char>, r: Seq<char>, n: Seq<char>, q: Seq<char>, u: Seq<char>, t: Seq<char>) -> Seq<
    Seq<char>,
> {
    seq![
        seq![],
        "date: \""@ + d + "\""@,
        "retailer: \""@ + r + "\""@,
        "name: \""@ + n + "\""@,
        "quantity: "@ + q,
        "unit_price: "@ + u,
        "price_total: "@ + t,
    ]
}

proof fn lemma_line_cons(u: Seq<char>, r: Seq<char>)
    requires
        one_line(u),
    ensures
        lines(u + seq!['\n'] + r) == seq![u] + lines(r),
{
    if u.len() > 0 {
        assert(u[u.len() - 1] == u.last());
    }
    lemma_lines_cons(u, r);
}

proof fn lemma_head_lines(d: Seq<char>, r: Seq<char>, n: Seq<char>, q: Seq<char>, u: Seq<char>, t: Seq<char>, x: Seq<char>)
    requires
        one_line(d),
        one_line(r),
        one_line(n),
        one_line(q),
        one_line(u),
        one_line(t),
    ensures
        lines(head_text(d, r, n, q, u, t) + x) == head_lines(d, r, n, q, u, t) + lines(x),
{
    lemma_head_literals();
    let nl = seq!['\n'];
    assert(one_line("date: \""@) && one_line("\""@) && one_line("retailer: \""@) && one_line("name: \""@)
        && one_line("quantity: "@) && one_line("unit_price: "@) && one_line("price_total: "@));
    lemma_one_line_concat("date: \""@, d);
    lemma_one_line_concat("date: \""@ + d, "\""@);
    lemma_one_line_concat("retailer: \""@, r);
    lemma_one_line_concat("retailer: \""@ + r, "\""@);
    lemma_one_line_concat("name: \""@, n);
    lemma_one_line_concat("name: \""@ + n, "\""@);
    lemma_one_line_concat("quantity: "@, q);
    lemma_one_line_concat("unit_price: "@, u);
    lemma_one_line_concat("price_total: "@, t);
    let hl = head_lines(d, r, n, q, u, t);
    let r6 = hl[6] + nl + x;
    let r5 = hl[5] + nl + r6;
    let r4 = hl[4] + nl + r5;
    let r3 = hl[3] + nl + r4;
    let r2 = hl[2] + nl + r3;
    let r1 = hl[1] + nl + r2;
    let r0 = hl[0] + nl + r1;
    assert(head_text(d, r, n, q, u, t) + x =~= r0);
    assert(one_line(hl[0]));
    lemma_line_cons(hl[0], r1);
    lemma_line_cons(hl[1], r2);
    lemma_line_cons(hl[2], r3);
    lemma_line_cons(hl[3], r4);
    lemma_line_cons(hl[4], r5);
    lemma_line_cons(hl[5], r6);
    lemma_line_cons(hl[6], x);
    assert(seq![hl[0]] + (seq![hl[1]] + (seq![hl[2]] + (seq![hl[3]] + (seq![hl[4]] + (seq![hl[5]] + (
    seq![hl[6]] + lines(x))))))) =~= hl + lines(x));
}

proof fn lemma_not_key_line(st: (Option<Seq<char>>, Option<Seq<char>>), l: Seq<char>)
    requires
        l.len() > 0,
        !is_ws(l[0]),
        l[0] != 'd',
        l[0] != 'p',
    ensures
        scan_line(st, l) == st,
{
    lemma_head_literals();
    lemma_trim_first(l);
    let t = trim(l);
    if starts_with(t, "date:"@) {
        assert(t.take(5)[0] == t[0]);
    }
    if starts_with(t, "price_total:"@) {
        assert(t.take(12)[0] == t[0]);
    }
}

proof fn lemma_date_line(st: (Option<Seq<char>>, Option<Seq<char>>), d: Seq<char>)
    requires
        plain_date(d),
    ensures
        scan_line(st, "date: \""@ + d + "\""@) == (Some(d), st.1),
{
    lemma_head_literals();
    let l = "date: \""@ + d + "\""@;
    assert(l[0] == 'd');
    assert(l.last() == '"');
    lemma_trim_ends(l);
    assert(l.take(5) =~= "date:"@) by {
        assert forall|k: int| 0 <= k < 5 implies l[k] == "date: \""@[k] by {}
        assert("date: \""@.take(5)[0] == "date:"@[0]);
        assert forall|k: int| 0 <= k < 5 implies l.take(5)[k] == "date:"@[k] by {
            assert("date: \""@.take(5)[k] == "date: \""@[k]);
        }
    }
    let w = seq!['"'] + d + seq!['"'];
    assert(l.skip(5) =~= seq![' '] + w) by {
        assert forall|k: int| 0 <= k < l.skip(5).len() implies l.skip(5)[k] == (seq![' '] + w)[k] by {
            if k < 2 {
                assert(l[5 + k] == "date: \""@[5 + k]);
                assert("date: \""@.skip(5)[k] == "date: \""@[5 + k]);
            }
        }
    }
    assert((seq![' '] + w).drop_first() =~= w);
    assert(trim_start(seq![' '] + w) == trim_start(w));
    assert(trim_start(w) == w);
    assert(w.last() == '"');
    assert(trim_end(w) == w);
    assert(trim(seq![' '] + w) == w);
    assert(w.drop_first() =~= d + seq!['"']);
    assert(d[0] != '"');
    assert((d + seq!['"'])[0] == d[0]);
    assert(w[0] == '"');
    assert(strip_leading(w, '"') == strip_leading(w.drop_first(), '"'));
    assert(strip_leading(d + seq!['"'], '"') == d + seq!['"']);
    assert(strip_leading(w, '"') == d + seq!['"']);
    assert((d + seq!['"']).drop_last() =~= d);
    assert(d[d.len() - 1] != '"');
    assert((d + seq!['"']).last() == '"');
    assert(strip_trailing(d + seq!['"'], '"') == strip_trailing((d + seq!['"']).drop_last(), '"'));
    assert(strip_trailing(d, '"') == d);
    assert(strip_trailing(d + seq!['"'], '"') == d);
    assert(d[d.len() - 1] != '\'');
    assert(strip_leading(d, '\'') == d);
    assert(strip_trailing(d, '\'') == d);
    assert(trim_matches(d, '\'') == d);
}

proof fn lemma_total_line(st: (Option<Seq<char>>, Option<Seq<char>>), t: Seq<char>)
    requires
        plain_total(t),
    ensures
        scan_line(st, "price_total: "@ + t) == (st.0, Some(t)),
{
    lemma_head_literals();
    let l = "price_total: "@ + t;
    assert(l[0] == 'p');
    assert(l.last() == t[t.len() - 1]);
    lemma_trim_ends(l);
    if starts_with(l, "date:"@) {
        assert(l.take(5)[0] == l[0]);
    }
    assert(l.take(12) =~= "price_total:"@) by {
        assert forall|k: int| 0 <= k < 12 implies l.take(12)[k] == "price_total:"@[k] by {
            assert("price_total: "@.take(12)[k] == "price_total: "@[k]);
        }
    }
    assert(l.skip(12) =~= seq![' '] + t) by {
        assert(l[12] == "price_total: "@[12]);
        assert("price_total: "@.skip(12)[0] == "price_total: "@[12]);
    }
    assert((seq![' '] + t).drop_first() =~= t);
    crate::text::lemma_trim_start_none(t);
    crate::text::lemma_trim_end_none(t);
    assert(trim_start(seq![' '] + t) == t);
    assert(trim(seq![' '] + t) == t);
}

proof fn lemma_scan_head(d: Seq<char>, r: Seq<char>, n: Seq<char>, q: Seq<char>, u: Seq<char>, t: Seq<char>, ys: Seq<Seq<char>>)
    requires
        plain_date(d),
        plain_total(t),
    ensures
        scan_lines(head_lines(d, r, n, q, u, t) + ys, (None, None)) == (Some(d), Some(t)),
{
    lemma_head_literals();
    let hl = head_lines(d, r, n, q, u, t);
    let none: (Option<Seq<char>>, Option<Seq<char>>) = (None, None);
    let z0 = hl + ys;
    let z1 = z0.drop_first();
    let z2 = z1.drop_first();
    let z3 = z2.drop_first();
    let z4 = z3.drop_first();
    let z5 = z4.drop_first();
    let z6 = z5.drop_first();
    assert(z0[0] == hl[0]);
    assert(z1[0] == hl[1]);
    assert(z2[0] == hl[2]);
    assert(z3[0] == hl[3]);
    assert(z4[0] == hl[4]);
    assert(z5[0] == hl[5]);
    assert(z6[0] == hl[6]);
    assert(trim(hl[0]) == hl[0]);
    assert(scan_line(none, hl[0]) == none);
    let sd = (Some(d), None::<Seq<char>>);
    lemma_date_line(none, d);
    assert(hl[2][0] == 'r') by {
        assert(hl[2][0] == "retailer: \""@[0]);
    }
    lemma_not_key_line(sd, hl[2]);
    assert(hl[3][0] == 'n') by {
        assert(hl[3][0] == "name: \""@[0]);
    }
    lemma_not_key_line(sd, hl[3]);
    assert(hl[4][0] == 'q') by {
        assert(hl[4][0] == "quantity: "@[0]);
    }
    lemma_not_key_line(sd, hl[4]);
    assert(hl[5][0] == 'u') by {
        assert(hl[5][0] == "unit_price: "@[0]);
    }
    lemma_not_key_line(sd, hl[5]);
    lemma_total_line(sd, t);
    assert(scan_lines(z6, sd) == (Some(d), Some(t)));
    assert(scan_lines(z5, sd) == scan_lines(z6, sd));
    assert(scan_lines(z4, sd) == scan_lines(z5, sd));
    assert(scan_lines(z3, sd) == scan_lines(z4, sd));
    assert(scan_lines(z2, sd) == scan_lines(z3, sd));
    assert(scan_lines(z1, none) == scan_lines(z2, sd));
    assert(scan_lines(z0, none) == scan_lines(z1, none));
}

/// `report monthly` reads back what `insert` writes for an item: the file's
/// front-matter gives the invoice's date and the item's price total — not
/// its unit price or any other field — as they were written, whenever each
/// field stays on its line (no newline; no dash in the retailer, name,
/// quantity and prices; no quote or run of three dashes in the date) and the
/// total is a number.
pub proof fn lemma_report_reads_item(
    inv: Invoice,
    name: Seq<char>,
    quantity: Seq<char>,
    unit_price: Seq<char>,
    price_total: Seq<char>,
)
    requires
        plain_date(inv.date@),
        plain_field(inv.retailer@),
        plain_field(name),
        plain_field(quantity),
        plain_field(unit_price),
        plain_total(price_total),
    ensures
        date_and_price(markdown_text(inv, name, quantity, unit_price, price_total)) == Some(
            (inv.date@, price_total),
        ),
{
    let d = inv.date@;
    let r = yaml_escaped(inv.retailer@);
    let n = yaml_escaped(name);
    lemma_escaped_plain(inv.retailer@);
    lemma_escaped_plain(name);
    let rest = lemma_item_split(inv, name, quantity, unit_price, price_total);
    let head = head_text(d, r, n, quantity, unit_price, price_total);
    lemma_head_no_dash_run(d, r, n, quantity, unit_price, price_total);
    let x = lemma_block_starts(head, rest);
    assert(one_line(d));
    assert(one_line(r));
    assert(one_line(n));
    assert(one_line(quantity));
    assert(one_line(unit_price));
    assert(one_line(price_total));
    lemma_head_lines(d, r, n, quantity, unit_price, price_total, x);
    lemma_scan_head(d, r, n, quantity, unit_price, price_total, lines(x));
}

} // verus!

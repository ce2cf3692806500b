//! What putting the directive block into a file promises: doing it twice
//! is doing it once, and taking the block out of a file it was put into
//! gives back the file's text (ending in a line break).
use vstd::prelude::*;
use crate::instructions::{
    MARKER_END, MARKER_START, block_end, marker_span, spec_append_block, spec_directive, spec_inject_block,
    spec_remove_block, spec_replace_between,
};
use crate::strings::{find_first, lemma_find_from, occurs_at};

verus! {

// ─── Occurrences ───────────────────────────────────────────────────

pub(crate) proof fn lemma_first(s: Seq<char>, n: Seq<char>)
    ensures
        find_first(s, n) matches Some(j) ==> occurs_at(s, n, j) && forall|i: int| 0 <= i < j ==> !occurs_at(s, n, i),
        find_first(s, n) is None ==> forall|i: int| 0 <= i ==> !occurs_at(s, n, i),
{
    lemma_find_from(s, n, 0);
}

pub(crate) proof fn lemma_first_at(s: Seq<char>, n: Seq<char>, j: int)
    requires
        occurs_at(s, n, j),
        forall|i: int| 0 <= i < j ==> !occurs_at(s, n, i),
    ensures
        find_first(s, n) == Some(j),
{
    lemma_first(s, n);
}

pub(crate) proof fn lemma_first_none(s: Seq<char>, n: Seq<char>)
    requires
        forall|i: int| 0 <= i ==> !occurs_at(s, n, i),
    ensures
        find_first(s, n) is None,
{
    lemma_first(s, n);
}

/// Occurrences inside a common prefix are the same.
pub(crate) proof fn lemma_common_prefix(s: Seq<char>, t: Seq<char>, n: Seq<char>, m: int, i: int)
    requires
        0 <= m <= s.len(),
        m <= t.len(),
        forall|k: int| 0 <= k < m ==> s[k] == t[k],
        0 <= i,
        i + n.len() <= m,
    ensures
        occurs_at(s, n, i) == occurs_at(t, n, i),
{
    assert(s.subrange(i, i + n.len()) =~= t.subrange(i, i + n.len()));
}

/// Occurrences in the second part of a concatenation.
pub(crate) proof fn lemma_shift(a: Seq<char>, c: Seq<char>, n: Seq<char>, i: int)
    requires
        0 <= i,
    ensures
        occurs_at(a + c, n, a.len() + i) == occurs_at(c, n, i),
{
    if i + n.len() <= c.len() {
        assert((a + c).subrange(a.len() + i, a.len() + i + n.len()) =~= c.subrange(i, i + n.len()));
    }
}

/// A text with no line break does not occur across one.
proof fn lemma_no_break(s: Seq<char>, n: Seq<char>, p: int, i: int)
    requires
        forall|k: int| 0 <= k < n.len() ==> n[k] != '\n',
        0 <= p < s.len(),
        s[p] == '\n',
        i <= p < i + n.len(),
    ensures
        !occurs_at(s, n, i),
{
    if occurs_at(s, n, i) {
        assert(s.subrange(i, i + n.len())[p - i] == s[p]);
    }
}

// ─── The markers ───────────────────────────────────────────────────

proof fn lemma_markers()
    ensures
        MARKER_START@.len() == 25,
        MARKER_END@.len() == 23,
        forall|k: int| 0 <= k < MARKER_START@.len() ==> MARKER_START@[k] != '\n',
        forall|k: int| 0 <= k < MARKER_END@.len() ==> MARKER_END@[k] != '\n',
{
    reveal_strlit("<!-- sf-compact:start -->");
    reveal_strlit("<!-- sf-compact:end -->");
}

/// A directive block: it starts with the start marker, ends with the end
/// marker, and holds neither marker anywhere else.
pub open spec fn is_block(b: Seq<char>) -> bool {
    &&& find_first(b, MARKER_START@) == Some(0int)
    &&& find_first(b, MARKER_END@) == Some(b.len() - MARKER_END@.len())
}

/// Content without either marker.
pub open spec fn no_markers(x: Seq<char>) -> bool {
    find_first(x, MARKER_START@) is None && find_first(x, MARKER_END@) is None
}

/// The content that goes before an appended block.
pub open spec fn padded(x: Seq<char>) -> Seq<char> {
    let c1 = if x.len() > 0 && x.last() != '\n' {
        x.push('\n')
    } else {
        x
    };
    if c1.len() > 0 {
        c1.push('\n')
    } else {
        c1
    }
}

proof fn lemma_padded(x: Seq<char>, n: Seq<char>)
    requires
        n.len() >= 2,
        forall|k: int| 0 <= k < n.len() ==> n[k] != '\n',
        find_first(x, n) is None,
    ensures
        forall|i: int| 0 <= i ==> !occurs_at(padded(x), n, i),
        padded(x).len() == 0 || padded(x).last() == '\n',
        x.len() == 0 ==> padded(x) == x,
{
    let p = padded(x);
    lemma_first(x, n);
    assert forall|i: int| 0 <= i implies !occurs_at(p, n, i) by {
        if i + n.len() <= x.len() {
            lemma_common_prefix(p, x, n, x.len() as int, i);
        } else if i + n.len() <= p.len() {
            assert(p[x.len() as int] == '\n');
            lemma_no_break(p, n, x.len() as int, i);
        }
    }
}

/// Where the block is put into content that has no block: after the padded content.
proof fn lemma_append_span(x: Seq<char>, b: Seq<char>)
    requires
        is_block(b),
        no_markers(x),
    ensures
        marker_span(spec_append_block(x, b)) == Some(
            (padded(x).len() as int, padded(x).len() + b.len() - MARKER_END@.len()),
        ),
        spec_append_block(x, b) == padded(x) + b + seq!['\n'],
{
    lemma_markers();
    let p = padded(x);
    let y = p + b + seq!['\n'];
    assert(spec_append_block(x, b) == y);
    lemma_padded(x, MARKER_START@);
    lemma_padded(x, MARKER_END@);
    lemma_first(b, MARKER_START@);
    lemma_first(b, MARKER_END@);
    // No occurrence of either marker starts inside the padded content.
    assert forall|i: int| 0 <= i < p.len() implies !occurs_at(y, MARKER_START@, i) && !occurs_at(y, MARKER_END@, i) by {
        assert(p.last() == '\n');
        if i + MARKER_START@.len() <= p.len() {
            lemma_common_prefix(y, p, MARKER_START@, p.len() as int, i);
        } else {
            lemma_no_break(y, MARKER_START@, p.len() - 1, i);
        }
        if i + MARKER_END@.len() <= p.len() {
            lemma_common_prefix(y, p, MARKER_END@, p.len() as int, i);
        } else {
            lemma_no_break(y, MARKER_END@, p.len() - 1, i);
        }
    }
    assert(y =~= p + (b + seq!['\n']));
    lemma_shift(p, b + seq!['\n'], MARKER_START@, 0);
    lemma_common_prefix(b + seq!['\n'], b, MARKER_START@, b.len() as int, 0);
    lemma_first_at(y, MARKER_START@, p.len() as int);
    let eb = b.len() - MARKER_END@.len();
    assert forall|i: int| 0 <= i < p.len() + eb implies !occurs_at(y, MARKER_END@, i) by {
        if i >= p.len() {
            lemma_shift(p, b + seq!['\n'], MARKER_END@, i - p.len());
            lemma_common_prefix(b + seq!['\n'], b, MARKER_END@, b.len() as int, i - p.len());
        }
    }
    lemma_shift(p, b + seq!['\n'], MARKER_END@, eb);
    lemma_common_prefix(b + seq!['\n'], b, MARKER_END@, b.len() as int, eb);
    lemma_first_at(y, MARKER_END@, p.len() + eb);
}

/// Where the block is put into content that has one: in its place.
proof fn lemma_replace_span(x: Seq<char>, b: Seq<char>)
    requires
        is_block(b),
        marker_span(x) is Some,
    ensures
        ({
            let (s, e) = marker_span(x)->Some_0;
            let y = x.subrange(0, s) + b + seq!['\n'] + x.subrange(block_end(x, e), x.len() as int);
            &&& spec_replace_between(x, b) == Some(y)
            &&& marker_span(y) == Some((s, s + b.len() - MARKER_END@.len()))
            &&& block_end(y, s + b.len() - MARKER_END@.len()) == s + b.len() + 1
        }),
{
    lemma_markers();
    let (s, e) = marker_span(x)->Some_0;
    lemma_first(x, MARKER_START@);
    lemma_first(x, MARKER_END@);
    lemma_first(b, MARKER_START@);
    lemma_first(b, MARKER_END@);
    let e3 = block_end(x, e);
    let pre = x.subrange(0, s);
    let rest = b + seq!['\n'] + x.subrange(e3, x.len() as int);
    let y = pre + rest;
    assert(y =~= x.subrange(0, s) + b + seq!['\n'] + x.subrange(e3, x.len() as int));
    // The text up to the end of the start marker is the same as in `x`.
    assert(x.subrange(s, s + 25) =~= MARKER_START@);
    assert(b.subrange(0, 25) =~= MARKER_START@);
    assert forall|k: int| 0 <= k < s + 25 implies y[k] == x[k] by {
        if k >= s {
            assert(y[k] == b[k - s]);
            assert(b.subrange(0, 25)[k - s] == x.subrange(s, s + 25)[k - s]);
        }
    }
    // The first start marker is at `s`.
    assert forall|i: int| 0 <= i < s implies !occurs_at(y, MARKER_START@, i) by {
        lemma_common_prefix(y, x, MARKER_START@, s + 25, i);
    }
    lemma_shift(pre, rest, MARKER_START@, 0);
    assert(rest =~= b + (seq!['\n'] + x.subrange(e3, x.len() as int)));
    lemma_common_prefix(rest, b, MARKER_START@, b.len() as int, 0);
    lemma_first_at(y, MARKER_START@, s);
    // The first end marker is the block's.
    let eb = b.len() - 23;
    assert forall|i: int| 0 <= i < s + eb implies !occurs_at(y, MARKER_END@, i) by {
        if i < s {
            lemma_common_prefix(y, x, MARKER_END@, s + 25, i);
        } else {
            lemma_shift(pre, rest, MARKER_END@, i - s);
            lemma_common_prefix(rest, b, MARKER_END@, b.len() as int, i - s);
        }
    }
    lemma_shift(pre, rest, MARKER_END@, eb);
    lemma_common_prefix(rest, b, MARKER_END@, b.len() as int, eb);
    lemma_first_at(y, MARKER_END@, s + eb);
    assert(y[s + b.len()] == '\n');
}

// ─── The laws ──────────────────────────────────────────────────────

/// Putting a directive block into content twice gives what putting it in
/// once gives, for content that has a block already or has neither
/// marker.
pub proof fn law_inject_idempotent(x: Seq<char>, b: Seq<char>)
    requires
        is_block(b),
        marker_span(x) is Some || no_markers(x),
    ensures
        spec_inject_block(spec_inject_block(x, b), b) == spec_inject_block(x, b),
{
    lemma_markers();
    if marker_span(x) is Some {
        lemma_replace_span(x, b);
        let (s, e) = marker_span(x)->Some_0;
        lemma_first(x, MARKER_START@);
        lemma_first(x, MARKER_END@);
        let e3 = block_end(x, e);
        assert(s + 25 <= x.len() && e + 23 <= e3 <= x.len());
        let y = spec_inject_block(x, b);
        assert(y == x.subrange(0, s) + b + seq!['\n'] + x.subrange(e3, x.len() as int));
        assert(y.len() == s + b.len() + 1 + (x.len() - e3));
        lemma_replace_span(y, b);
        let eb = s + b.len() - 23;
        let z = y.subrange(0, s) + b + seq!['\n'] + y.subrange(block_end(y, eb), y.len() as int);
        assert(z =~= y);
    } else {
        assert(spec_replace_between(x, b) is None);
        lemma_append_span(x, b);
        let y = spec_inject_block(x, b);
        lemma_replace_span(y, b);
        let p = padded(x);
        let z = y.subrange(0, p.len() as int) + b + seq!['\n'] + y.subrange((p.len() + b.len() + 1) as int, y.len() as int);
        assert(z =~= y);
    }
}

/// Taking the block out of content that it was put into gives back the
/// content, with a line break at its end when it had none, for content
/// that had neither marker.
pub proof fn law_remove_after_inject(x: Seq<char>, b: Seq<char>)
    requires
        is_block(b),
        no_markers(x),
    ensures
        spec_remove_block(spec_inject_block(x, b)) == Some(
            if x.len() > 0 && x.last() != '\n' {
                x.push('\n')
            } else {
                x
            },
        ),
{
    lemma_markers();
    assert(spec_replace_between(x, b) is None);
    lemma_append_span(x, b);
    let y = spec_inject_block(x, b);
    let p = padded(x);
    let s = p.len() as int;
    let e = p.len() + b.len() - 23;
    assert(block_end(y, e) == y.len());
    let expect = if x.len() > 0 && x.last() != '\n' {
        x.push('\n')
    } else {
        x
    };
    if s > 0 {
        assert(y[s - 1] == '\n');
        assert(y.subrange(0, s - 1) + y.subrange(y.len() as int, y.len() as int) =~= expect);
    } else {
        assert(y.subrange(0, s) + y.subrange(y.len() as int, y.len() as int) =~= expect);
    }
}


// ─── The directive block ───────────────────────────────────────────

/// No character of `s` is `<`.
pub open spec fn lt_free(s: Seq<char>) -> bool {
    forall|i: int| 0 <= i < s.len() ==> s[i] != '<'
}

/// No character of `s` before position `n` is `<`.
pub open spec fn lt_free_upto(s: Seq<char>, n: int) -> bool
    decreases n,
{
    if n <= 0 {
        true
    } else {
        s[n - 1] != '<' && lt_free_upto(s, n - 1)
    }
}

proof fn lemma_lt_free_upto(s: Seq<char>, n: int)
    requires
        lt_free_upto(s, n),
    ensures
        forall|i: int| 0 <= i < n ==> s[i] != '<',
    decreases n,
{
    if n > 0 {
        lemma_lt_free_upto(s, n - 1);
    }
}

/// The prefix `a` of a directive block, extended by `b`.
proof fn lemma_block_prefix(a: Seq<char>, b: Seq<char>)
    requires
        a.len() >= 25,
        a.subrange(0, 25) == MARKER_START@,
        forall|i: int| 1 <= i < a.len() ==> a[i] != '<',
        lt_free(b),
    ensures
        (a + b).len() >= 25,
        (a + b).subrange(0, 25) == MARKER_START@,
        forall|i: int| 1 <= i < (a + b).len() ==> (a + b)[i] != '<',
{
    assert((a + b).subrange(0, 25) =~= a.subrange(0, 25));
    assert forall|i: int| 1 <= i < (a + b).len() implies (a + b)[i] != '<' by {
        if i >= a.len() {
            assert((a + b)[i] == b[i - a.len()]);
        }
    }
}

/// No fixed piece of the directive text holds a `<`.
#[verifier::rlimit(60)]
proof fn lemma_directive_pieces()
    ensures
        lt_free("\n## Salesforce Metadata — sf-compact\n\nThis project uses `sf-compact` to compress Salesforce metadata XML into compact YAML/JSON.\nCompact files are in `"@),
        lt_free("/` and mirror the `"@),
        lt_free("/` structure exactly (same\npaths, only the file extension changes: `-meta.xml` → `-meta.yaml` or `-meta.json`).\n\n**When reading Salesforce metadata** (objects, fields, profiles, permission sets, flows,\nlayouts, etc.), prefer `"@),
        lt_free("/` over `"@),
        lt_free("/` — the files are smaller and\ncontain identical information.\n\n**Path mapping**: replace `"@),
        lt_free("/` with `"@),
        lt_free("/` and `.xml` with `.yaml`/`.json`.\nExample: `"@),
        lt_free("/main/default/objects/Account/Account.object-meta.xml`\n→ `"@),
        lt_free("/main/default/objects/Account/Account.object-meta.json`\n\n**If `"@),
        lt_free("/` is missing or outdated**, run:\n```\nsf-compact pack\n```\n\n**If you need to modify metadata**, edit the compact file in `"@),
        lt_free("/`, then run:\n```\nsf-compact unpack\n```\n\n**Non-metadata files** (Apex classes `.cls`, triggers `.trigger`, LWC `.js/.html/.css`)\nshould still be read directly from `"@),
        lt_free("/`.\n"@),
{
    reveal_with_fuel(lt_free_upto, 41);
    reveal_strlit("\n## Salesforce Metadata — sf-compact\n\nThis project uses `sf-compact` to compress Salesforce metadata XML into compact YAML/JSON.\nCompact files are in `");
    let p0 = "\n## Salesforce Metadata — sf-compact\n\nThis project uses `sf-compact` to compress Salesforce metadata XML into compact YAML/JSON.\nCompact files are in `"@;
    assert(p0.len() == 151);
    assert(lt_free_upto(p0, 40));
    assert(lt_free_upto(p0, 80));
    assert(lt_free_upto(p0, 120));
    assert(lt_free_upto(p0, 151));
    lemma_lt_free_upto(p0, 151);
    reveal_strlit("/` and mirror the `");
    let p1 = "/` and mirror the `"@;
    assert(p1.len() == 19);
    assert(lt_free_upto(p1, 19));
    lemma_lt_free_upto(p1, 19);
    reveal_strlit("/` structure exactly (same\npaths, only the file extension changes: `-meta.xml` → `-meta.yaml` or `-meta.json`).\n\n**When reading Salesforce metadata** (objects, fields, profiles, permission sets, flows,\nlayouts, etc.), prefer `");
    let p2 = "/` structure exactly (same\npaths, only the file extension changes: `-meta.xml` → `-meta.yaml` or `-meta.json`).\n\n**When reading Salesforce metadata** (objects, fields, profiles, permission sets, flows,\nlayouts, etc.), prefer `"@;
    assert(p2.len() == 226);
    assert(lt_free_upto(p2, 40));
    assert(lt_free_upto(p2, 80));
    assert(lt_free_upto(p2, 120));
    assert(lt_free_upto(p2, 160));
    assert(lt_free_upto(p2, 200));
    assert(lt_free_upto(p2, 226));
    lemma_lt_free_upto(p2, 226);
    reveal_strlit("/` over `");
    let p3 = "/` over `"@;
    assert(p3.len() == 9);
    assert(lt_free_upto(p3, 9));
    lemma_lt_free_upto(p3, 9);
    reveal_strlit("/` — the files are smaller and\ncontain identical information.\n\n**Path mapping**: replace `");
    let p4 = "/` — the files are smaller and\ncontain identical information.\n\n**Path mapping**: replace `"@;
    assert(p4.len() == 90);
    assert(lt_free_upto(p4, 40));
    assert(lt_free_upto(p4, 80));
    assert(lt_free_upto(p4, 90));
    lemma_lt_free_upto(p4, 90);
    reveal_strlit("/` with `");
    let p5 = "/` with `"@;
    assert(p5.len() == 9);
    assert(lt_free_upto(p5, 9));
    lemma_lt_free_upto(p5, 9);
    reveal_strlit("/` and `.xml` with `.yaml`/`.json`.\nExample: `");
    let p6 = "/` and `.xml` with `.yaml`/`.json`.\nExample: `"@;
    assert(p6.len() == 46);
    assert(lt_free_upto(p6, 40));
    assert(lt_free_upto(p6, 46));
    lemma_lt_free_upto(p6, 46);
    reveal_strlit("/main/default/objects/Account/Account.object-meta.xml`\n→ `");
    let p7 = "/main/default/objects/Account/Account.object-meta.xml`\n→ `"@;
    assert(p7.len() == 58);
    assert(lt_free_upto(p7, 40));
    assert(lt_free_upto(p7, 58));
    lemma_lt_free_upto(p7, 58);
    reveal_strlit("/main/default/objects/Account/Account.object-meta.json`\n\n**If `");
    let p8 = "/main/default/objects/Account/Account.object-meta.json`\n\n**If `"@;
    assert(p8.len() == 63);
    assert(lt_free_upto(p8, 40));
    assert(lt_free_upto(p8, 63));
    lemma_lt_free_upto(p8, 63);
    reveal_strlit("/` is missing or outdated**, run:\n```\nsf-compact pack\n```\n\n**If you need to modify metadata**, edit the compact file in `");
    let p9 = "/` is missing or outdated**, run:\n```\nsf-compact pack\n```\n\n**If you need to modify metadata**, edit the compact file in `"@;
    assert(p9.len() == 121);
    assert(lt_free_upto(p9, 40));
    assert(lt_free_upto(p9, 80));
    assert(lt_free_upto(p9, 120));
    assert(lt_free_upto(p9, 121));
    lemma_lt_free_upto(p9, 121);
    reveal_strlit("/`, then run:\n```\nsf-compact unpack\n```\n\n**Non-metadata files** (Apex classes `.cls`, triggers `.trigger`, LWC `.js/.html/.css`)\nshould still be read directly from `");
    let p10 = "/`, then run:\n```\nsf-compact unpack\n```\n\n**Non-metadata files** (Apex classes `.cls`, triggers `.trigger`, LWC `.js/.html/.css`)\nshould still be read directly from `"@;
    assert(p10.len() == 165);
    assert(lt_free_upto(p10, 40));
    assert(lt_free_upto(p10, 80));
    assert(lt_free_upto(p10, 120));
    assert(lt_free_upto(p10, 160));
    assert(lt_free_upto(p10, 165));
    lemma_lt_free_upto(p10, 165);
    reveal_strlit("/`.\n");
    let p11 = "/`.\n"@;
    assert(p11.len() == 4);
    assert(lt_free_upto(p11, 4));
    lemma_lt_free_upto(p11, 4);
}

/// The directive block for directory names without a `<` is a block: it
/// starts with the start marker and its only end marker is its last text.
pub proof fn lemma_directive_is_block(out: Seq<char>, src: Seq<char>)
    requires
        lt_free(out),
        lt_free(src),
    ensures
        is_block(spec_directive(out, src)),
{
    lemma_directive_pieces();
    reveal_strlit("<!-- sf-compact:start -->");
    reveal_strlit("<!-- sf-compact:end -->");
    let ms = MARKER_START@;
    let me = MARKER_END@;
    assert(ms.len() == 25 && me.len() == 23);
    assert(ms.subrange(0, 25) =~= ms);
    assert forall|i: int| 1 <= i < ms.len() implies ms[i] != '<' by {}
    let a0 = MARKER_START@;
    lemma_block_prefix(a0, "\n## Salesforce Metadata — sf-compact\n\nThis project uses `sf-compact` to compress Salesforce metadata XML into compact YAML/JSON.\nCompact files are in `"@);
    let a1 = a0 + "\n## Salesforce Metadata — sf-compact\n\nThis project uses `sf-compact` to compress Salesforce metadata XML into compact YAML/JSON.\nCompact files are in `"@;
    lemma_block_prefix(a1, out);
    let a2 = a1 + out;
    lemma_block_prefix(a2, "/` and mirror the `"@);
    let a3 = a2 + "/` and mirror the `"@;
    lemma_block_prefix(a3, src);
    let a4 = a3 + src;
    lemma_block_prefix(a4, "/` structure exactly (same\npaths, only the file extension changes: `-meta.xml` → `-meta.yaml` or `-meta.json`).\n\n**When reading Salesforce metadata** (objects, fields, profiles, permission sets, flows,\nlayouts, etc.), prefer `"@);
    let a5 = a4 + "/` structure exactly (same\npaths, only the file extension changes: `-meta.xml` → `-meta.yaml` or `-meta.json`).\n\n**When reading Salesforce metadata** (objects, fields, profiles, permission sets, flows,\nlayouts, etc.), prefer `"@;
    lemma_block_prefix(a5, out);
    let a6 = a5 + out;
    lemma_block_prefix(a6, "/` over `"@);
    let a7 = a6 + "/` over `"@;
    lemma_block_prefix(a7, src);
    let a8 = a7 + src;
    lemma_block_prefix(a8, "/` — the files are smaller and\ncontain identical information.\n\n**Path mapping**: replace `"@);
    let a9 = a8 + "/` — the files are smaller and\ncontain identical information.\n\n**Path mapping**: replace `"@;
    lemma_block_prefix(a9, src);
    let a10 = a9 + src;
    lemma_block_prefix(a10, "/` with `"@);
    let a11 = a10 + "/` with `"@;
    lemma_block_prefix(a11, out);
    let a12 = a11 + out;
    lemma_block_prefix(a12, "/` and `.xml` with `.yaml`/`.json`.\nExample: `"@);
    let a13 = a12 + "/` and `.xml` with `.yaml`/`.json`.\nExample: `"@;
    lemma_block_prefix(a13, src);
    let a14 = a13 + src;
    lemma_block_prefix(a14, "/main/default/objects/Account/Account.object-meta.xml`\n→ `"@);
    let a15 = a14 + "/main/default/objects/Account/Account.object-meta.xml`\n→ `"@;
    lemma_block_prefix(a15, out);
    let a16 = a15 + out;
    lemma_block_prefix(a16, "/main/default/objects/Account/Account.object-meta.json`\n\n**If `"@);
    let a17 = a16 + "/main/default/objects/Account/Account.object-meta.json`\n\n**If `"@;
    lemma_block_prefix(a17, out);
    let a18 = a17 + out;
    lemma_block_prefix(a18, "/` is missing or outdated**, run:\n```\nsf-compact pack\n```\n\n**If you need to modify metadata**, edit the compact file in `"@);
    let a19 = a18 + "/` is missing or outdated**, run:\n```\nsf-compact pack\n```\n\n**If you need to modify metadata**, edit the compact file in `"@;
    lemma_block_prefix(a19, out);
    let a20 = a19 + out;
    lemma_block_prefix(a20, "/`, then run:\n```\nsf-compact unpack\n```\n\n**Non-metadata files** (Apex classes `.cls`, triggers `.trigger`, LWC `.js/.html/.css`)\nshould still be read directly from `"@);
    let a21 = a20 + "/`, then run:\n```\nsf-compact unpack\n```\n\n**Non-metadata files** (Apex classes `.cls`, triggers `.trigger`, LWC `.js/.html/.css`)\nshould still be read directly from `"@;
    lemma_block_prefix(a21, src);
    let a22 = a21 + src;
    lemma_block_prefix(a22, "/`.\n"@);
    let a23 = a22 + "/`.\n"@;
    let d = spec_directive(out, src);
    assert(d == a23 + me);
    let n: int = a23.len() as int;
    assert(d.subrange(0, 25) =~= a23.subrange(0, 25));
    lemma_first_at(d, ms, 0);
    assert(d.subrange(n, n + 23) =~= me);
    assert forall|i: int| 0 <= i < n implies !occurs_at(d, me, i) by {
        if occurs_at(d, me, i) {
            let w = d.subrange(i, i + 23);
            if i == 0 {
                assert(w[16] == d[16]);
                assert(d[16] == a23[16]);
                assert(a23.subrange(0, 25)[16] == ms[16]);
                assert(w[16] == me[16]);
            } else {
                assert(w[0] == d[i]);
                assert(d[i] == a23[i]);
                assert(w[0] == me[0]);
            }
        }
    }
    lemma_first_at(d, me, n);
}

/// Putting the directive block for compact files in `out` mirroring `src`
/// into content twice gives what putting it in once gives, for content
/// that has a block already or has neither marker, when neither directory
/// name holds a `<`.
pub proof fn law_inject_directive_idempotent(x: Seq<char>, out: Seq<char>, src: Seq<char>)
    requires
        lt_free(out),
        lt_free(src),
        marker_span(x) is Some || no_markers(x),
    ensures
        spec_inject_block(spec_inject_block(x, spec_directive(out, src)), spec_directive(out, src))
            == spec_inject_block(x, spec_directive(out, src)),
{
    lemma_directive_is_block(out, src);
    law_inject_idempotent(x, spec_directive(out, src));
}

/// Taking the directive block for compact files in `out` mirroring `src`
/// out of content that it was put into gives back the content, with a line
/// break at its end when it had none, for content that had neither marker,
/// when neither directory name holds a `<`.
pub proof fn law_remove_after_inject_directive(x: Seq<char>, out: Seq<char>, src: Seq<char>)
    requires
        lt_free(out),
        lt_free(src),
        no_markers(x),
    ensures
        spec_remove_block(spec_inject_block(x, spec_directive(out, src))) == Some(
            if x.len() > 0 && x.last() != '\n' {
                x.push('\n')
            } else {
                x
            },
        ),
{
    lemma_directive_is_block(out, src);
    law_remove_after_inject(x, spec_directive(out, src));
}


proof fn lemma_prefix_keep(x: Seq<char>, y: Seq<char>, n: int)
    requires
        0 <= n <= x.len(),
    ensures
        (x + y).subrange(0, n) == x.subrange(0, n),
{
    assert((x + y).subrange(0, n) =~= x.subrange(0, n));
}

/// The directive sends AI tools to the compact files: it holds
/// ``prefer `<out>/` over `<src>/` `` for output directory `out` and source
/// directory `src`.
pub proof fn law_directive_prefers_compact(out: Seq<char>, src: Seq<char>)
    ensures
        exists|i: int| occurs_at(spec_directive(out, src), "prefer `"@ + out + "/` over `"@ + src + "/`"@, i),
{
    reveal_strlit("/` structure exactly (same\npaths, only the file extension changes: `-meta.xml` → `-meta.yaml` or `-meta.json`).\n\n**When reading Salesforce metadata** (objects, fields, profiles, permission sets, flows,\nlayouts, etc.), prefer `");
    reveal_strlit("prefer `");
    reveal_strlit("/` over `");
    reveal_strlit("/` — the files are smaller and\ncontain identical information.\n\n**Path mapping**: replace `");
    reveal_strlit("/`");
    let a0 = MARKER_START@;
    let a1 = a0 + "\n## Salesforce Metadata — sf-compact\n\nThis project uses `sf-compact` to compress Salesforce metadata XML into compact YAML/JSON.\nCompact files are in `"@;
    let a2 = a1 + out;
    let a3 = a2 + "/` and mirror the `"@;
    let a4 = a3 + src;
    let a5 = a4 + "/` structure exactly (same\npaths, only the file extension changes: `-meta.xml` → `-meta.yaml` or `-meta.json`).\n\n**When reading Salesforce metadata** (objects, fields, profiles, permission sets, flows,\nlayouts, etc.), prefer `"@;
    let a6 = a5 + out;
    let a7 = a6 + "/` over `"@;
    let a8 = a7 + src;
    let a9 = a8 + "/` — the files are smaller and\ncontain identical information.\n\n**Path mapping**: replace `"@;
    let a10 = a9 + src;
    let a11 = a10 + "/` with `"@;
    let a12 = a11 + out;
    let a13 = a12 + "/` and `.xml` with `.yaml`/`.json`.\nExample: `"@;
    let a14 = a13 + src;
    let a15 = a14 + "/main/default/objects/Account/Account.object-meta.xml`\n→ `"@;
    let a16 = a15 + out;
    let a17 = a16 + "/main/default/objects/Account/Account.object-meta.json`\n\n**If `"@;
    let a18 = a17 + out;
    let a19 = a18 + "/` is missing or outdated**, run:\n```\nsf-compact pack\n```\n\n**If you need to modify metadata**, edit the compact file in `"@;
    let a20 = a19 + out;
    let a21 = a20 + "/`, then run:\n```\nsf-compact unpack\n```\n\n**Non-metadata files** (Apex classes `.cls`, triggers `.trigger`, LWC `.js/.html/.css`)\nshould still be read directly from `"@;
    let a22 = a21 + src;
    let a23 = a22 + "/`.\n"@;
    let d = spec_directive(out, src);
    assert(d == a23 + MARKER_END@);
    lemma_prefix_keep(a9, src, a9.len() as int);
    lemma_prefix_keep(a10, "/` with `"@, a9.len() as int);
    lemma_prefix_keep(a11, out, a9.len() as int);
    lemma_prefix_keep(a12, "/` and `.xml` with `.yaml`/`.json`.\nExample: `"@, a9.len() as int);
    lemma_prefix_keep(a13, src, a9.len() as int);
    lemma_prefix_keep(a14, "/main/default/objects/Account/Account.object-meta.xml`\n→ `"@, a9.len() as int);
    lemma_prefix_keep(a15, out, a9.len() as int);
    lemma_prefix_keep(a16, "/main/default/objects/Account/Account.object-meta.json`\n\n**If `"@, a9.len() as int);
    lemma_prefix_keep(a17, out, a9.len() as int);
    lemma_prefix_keep(a18, "/` is missing or outdated**, run:\n```\nsf-compact pack\n```\n\n**If you need to modify metadata**, edit the compact file in `"@, a9.len() as int);
    lemma_prefix_keep(a19, out, a9.len() as int);
    lemma_prefix_keep(a20, "/`, then run:\n```\nsf-compact unpack\n```\n\n**Non-metadata files** (Apex classes `.cls`, triggers `.trigger`, LWC `.js/.html/.css`)\nshould still be read directly from `"@, a9.len() as int);
    lemma_prefix_keep(a21, src, a9.len() as int);
    lemma_prefix_keep(a22, "/`.\n"@, a9.len() as int);
    lemma_prefix_keep(a23, MARKER_END@, a9.len() as int);
    assert(d.subrange(0, a9.len() as int) == a9.subrange(0, a9.len() as int));
    let p2 = "/` structure exactly (same\npaths, only the file extension changes: `-meta.xml` → `-meta.yaml` or `-meta.json`).\n\n**When reading Salesforce metadata** (objects, fields, profiles, permission sets, flows,\nlayouts, etc.), prefer `"@;
    let p4 = "/` — the files are smaller and\ncontain identical information.\n\n**Path mapping**: replace `"@;
    assert(p2.subrange(p2.len() - 8, p2.len() as int) =~= "prefer `"@);
    assert(p4.subrange(0, 2) =~= "/`"@);
    let needle = "prefer `"@ + out + "/` over `"@ + src + "/`"@;
    let i = a5.len() - 8;
    let n = needle.len() as int;
    assert(i + n <= a9.len());
    assert(a9.subrange(i, i + n) =~= needle) by {
        assert forall|k: int| 0 <= k < n implies a9.subrange(i, i + n)[k] == needle[k] by {
            if k < 8 {
                assert(a9[i + k] == a5[i + k]);
                assert(a5[i + k] == p2[p2.len() - 8 + k]);
                assert(p2.subrange(p2.len() - 8, p2.len() as int)[k] == p2[p2.len() - 8 + k]);
            } else if k < 8 + out.len() {
                assert(a9[i + k] == a6[i + k]);
            } else if k < 8 + out.len() + 9 {
                assert(a9[i + k] == a7[i + k]);
            } else if k < 8 + out.len() + 9 + src.len() {
                assert(a9[i + k] == a8[i + k]);
            } else {
                assert(a9[i + k] == p4[k - (8 + out.len() + 9 + src.len())]);
                assert(p4.subrange(0, 2)[k - (8 + out.len() + 9 + src.len())] == p4[k - (8 + out.len() + 9 + src.len())]);
            }
        }
    }
    assert(d.subrange(i, i + n) =~= a9.subrange(i, i + n)) by {
        assert forall|k: int| 0 <= k < n implies #[trigger] d.subrange(i, i + n)[k] == a9.subrange(i, i + n)[k] by {
            assert(d.subrange(0, a9.len() as int)[i + k] == d[i + k]);
        }
    }
    assert(occurs_at(d, needle, i));
}

} // verus!

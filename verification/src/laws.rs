//! Laws of the substitution engine, stated over the scanner's model.

use vstd::prelude::*;

use crate::scan::{
    dedup_spec, delims_ok, find_at, insert_all, lemma_find_at, lemma_matches_at_skip, matches_at,
    pat_of, replace_all, scan_spec, ParseError,
};
use crate::templates::parse::{lemma_template_delims, template_close, template_open};

verus! {

/// The string holds no character of the `${...}` delimiters.
pub open spec fn user_clean(s: Seq<char>) -> bool {
    forall|i: int| 0 <= i < s.len() ==> s[i] != '$' && s[i] != '{' && s[i] != '}'
}

/// Entries the substitution laws speak of: unique keys, and keys and values
/// free of delimiter characters, the values nonempty.
pub open spec fn entries_ok(entries: Seq<(Seq<char>, Seq<char>)>) -> bool {
    &&& forall|i: int|
        0 <= i < entries.len() ==> user_clean(#[trigger] entries[i].0) && user_clean(entries[i].1)
            && entries[i].1.len() > 0
    &&& forall|i: int, j: int| 0 <= i < j < entries.len() ==> entries[i].0 != entries[j].0
}

/// The value of the first entry whose key is the name, if any.
pub open spec fn resolve(m: Seq<char>, entries: Seq<(Seq<char>, Seq<char>)>) -> Option<Seq<char>>
    decreases entries.len(),
{
    if entries.len() == 0 {
        None
    } else if entries[0].0 == m {
        Some(entries[0].1)
    } else {
        resolve(m, entries.drop_first())
    }
}

/// The names no entry resolves, in order.
pub open spec fn unresolved_names(
    names: Seq<Seq<char>>,
    entries: Seq<(Seq<char>, Seq<char>)>,
) -> Seq<Seq<char>>
    decreases names.len(),
{
    if names.len() == 0 {
        Seq::empty()
    } else {
        let rest = unresolved_names(names.drop_first(), entries);
        if resolve(names[0], entries) is Some {
            rest
        } else {
            seq![names[0]] + rest
        }
    }
}

/// No occurrence of the opening token anywhere in the string.
pub open spec fn no_open_in(s: Seq<char>) -> bool {
    forall|j: int| !matches_at(s, template_open(), j)
}

/// No occurrence of the closing token anywhere in the string.
pub open spec fn no_close_in(s: Seq<char>) -> bool {
    forall|j: int| !matches_at(s, template_close(), j)
}

/// An occurrence of the opening token is a `$` followed by a `{`.
proof fn lemma_open_matches(x: Seq<char>, j: int)
    ensures
        matches_at(x, template_open(), j) <==> (0 <= j && j + 2 <= x.len() && x[j] == '$' && x[j
            + 1] == '{'),
{
    if 0 <= j && j + 2 <= x.len() {
        if matches_at(x, template_open(), j) {
            assert(x.subrange(j, j + 2)[0] == x[j]);
            assert(x.subrange(j, j + 2)[1] == x[j + 1]);
        }
        if x[j] == '$' && x[j + 1] == '{' {
            assert(x.subrange(j, j + 2) =~= template_open());
        }
    }
}

/// An occurrence of the closing token is a `}`.
proof fn lemma_close_matches(x: Seq<char>, j: int)
    ensures
        matches_at(x, template_close(), j) <==> (0 <= j < x.len() && x[j] == '}'),
{
    if 0 <= j < x.len() {
        if matches_at(x, template_close(), j) {
            assert(x.subrange(j, j + 1)[0] == x[j]);
        }
        if x[j] == '}' {
            assert(x.subrange(j, j + 1) =~= template_close());
        }
    }
}

/// An occurrence within a prefix is an occurrence of the whole string, and
/// the other way round when it fits inside the prefix.
proof fn lemma_matches_restrict(text: Seq<char>, p: Seq<char>, s: int, j: int)
    requires
        0 <= s <= text.len(),
    ensures
        j + p.len() <= s ==> (matches_at(text.take(s), p, j) <==> matches_at(text, p, j)),
{
    if 0 <= j && j + p.len() <= s {
        if matches_at(text.take(s), p, j) {
            assert(text.subrange(j, j + p.len() as int) =~= text.take(s).subrange(
                j,
                j + p.len() as int,
            ));
        }
        if matches_at(text, p, j) {
            assert(text.take(s).subrange(j, j + p.len() as int) =~= text.subrange(
                j,
                j + p.len() as int,
            ));
        }
    }
}

/// Indexing facts for an occurrence: the pattern's characters stand in the
/// text.
proof fn lemma_matches_chars(text: Seq<char>, p: Seq<char>, j: int)
    requires
        matches_at(text, p, j),
    ensures
        forall|x: int| 0 <= x < p.len() ==> text[j + x] == p[x],
{
    assert forall|x: int| 0 <= x < p.len() implies text[j + x] == p[x] by {
        assert(text.subrange(j, j + p.len() as int)[x] == text[j + x]);
    }
}

/// Where an occurrence of a whole placeholder `${k}` can lie in
/// `l + seg + rest`: wholly inside `rest`, or exactly on `seg` when `seg`
/// is the placeholder of `k` itself.
proof fn lemma_occ_localized(
    l: Seq<char>,
    seg: Seq<char>,
    rest: Seq<char>,
    k: Seq<char>,
    m: Seq<char>,
    is_ph: bool,
    j: int,
)
    requires
        no_open_in(l),
        user_clean(k),
        is_ph ==> seg == template_open() + m + template_close() && no_close_in(m) && no_open_in(m),
        !is_ph ==> user_clean(seg) && seg.len() > 0,
        matches_at(l + seg + rest, pat_of(template_open(), k, template_close()), j),
    ensures
        j >= l.len() + seg.len() || (is_ph && k == m && j == l.len()),
{
    let w = l + seg + rest;
    let pat = pat_of(template_open(), k, template_close());
    assert(pat.len() == k.len() + 3);
    assert(pat[0] == '$' && pat[1] == '{' && pat[pat.len() - 1] == '}');
    assert(forall|x: int| 0 <= x < k.len() ==> pat[2 + x] == k[x]);
    lemma_matches_chars(w, pat, j);
    assert(w[j] == '$' && w[j + 1] == '{');
    if is_ph {
        assert(seg.len() == m.len() + 3);
        assert(seg[0] == '$' && seg[1] == '{' && seg[seg.len() - 1] == '}');
        assert(forall|x: int| 0 <= x < m.len() ==> seg[2 + x] == m[x]);
    }
    if j + 2 <= l.len() {
        lemma_open_matches(l, j);
        assert(l[j] == w[j] && l[j + 1] == w[j + 1]);
        assert(false);
    } else if j + 1 == l.len() {
        assert(w[j + 1] == seg[0]);
        assert(false);
    } else if j < l.len() + seg.len() {
        let p = j - l.len();
        assert(0 <= p < seg.len());
        assert(w[j] == seg[p]);
        if !is_ph {
            assert(false);
        } else {
            if p == 0 {
                // The occurrence starts exactly on the placeholder: the key
                // must be the placeholder's name.
                if k.len() < m.len() {
                    assert(w[j + 2 + k.len()] == seg[2 + k.len() as int]);
                    assert(seg[2 + k.len() as int] == m[k.len() as int]);
                    assert(w[j + 2 + k.len()] == pat[2 + k.len() as int]);
                    assert(pat[2 + k.len() as int] == '}');
                    lemma_close_matches(m, k.len() as int);
                    assert(matches_at(m, template_close(), k.len() as int));
                    assert(false);
                } else if k.len() > m.len() {
                    assert(w[j + 2 + m.len()] == seg[2 + m.len() as int]);
                    assert(seg[2 + m.len() as int] == '}');
                    assert(w[j + 2 + m.len()] == pat[2 + m.len() as int]);
                    assert(pat[2 + m.len() as int] == k[m.len() as int]);
                    assert(false);
                } else {
                    assert forall|x: int| 0 <= x < k.len() implies k[x] == m[x] by {
                        assert(w[j + 2 + x] == pat[2 + x]);
                        assert(w[j + 2 + x] == seg[2 + x]);
                    }
                    assert(k =~= m);
                }
            } else if p == 1 {
                assert(seg[1] == '{');
                assert(false);
            } else if p < 2 + m.len() {
                // A `$` inside the name: the next character cannot open a
                // placeholder there.
                assert(seg[p] == m[p - 2]);
                if p - 2 + 1 < m.len() {
                    assert(w[j + 1] == seg[p + 1]);
                    assert(seg[p + 1] == m[p - 1]);
                    lemma_open_matches(m, p - 2);
                    assert(matches_at(m, template_open(), p - 2));
                    assert(false);
                } else {
                    assert(w[j + 1] == seg[p + 1]);
                    assert(seg[p + 1] == '}');
                    assert(false);
                }
            } else {
                assert(seg[p] == '}');
                assert(false);
            }
        }
    }
}

/// An occurrence of a concatenation starts with an occurrence of its first
/// part.
proof fn lemma_matches_prefix(text: Seq<char>, a: Seq<char>, b: Seq<char>, j: int)
    requires
        matches_at(text, a + b, j),
    ensures
        matches_at(text, a, j),
{
    assert forall|m: int| 0 <= m < a.len() implies text.subrange(j, j + a.len() as int)[m]
        == a[m] by {
        assert(text.subrange(j, j + (a + b).len() as int)[m] == (a + b)[m]);
    }
    assert(text.subrange(j, j + a.len() as int) =~= a);
}

/// A text without the opening token holds no whole placeholder either.
proof fn lemma_no_open_no_pat(text: Seq<char>, open: Seq<char>, k: Seq<char>, close: Seq<char>)
    requires
        find_at(text, open) is None,
    ensures
        find_at(text, pat_of(open, k, close)) is None,
{
    lemma_find_at(text, open);
    lemma_find_at(text, pat_of(open, k, close));
    if let Some(i) = find_at(text, pat_of(open, k, close)) {
        assert(matches_at(text, open + (k + close), i)) by {
            assert(open + (k + close) =~= pat_of(open, k, close));
        }
        lemma_matches_prefix(text, open, k + close, i);
    }
}

/// Identity law: a template in which the scan finds no placeholder renders
/// to itself, whatever entries are supplied.
pub proof fn lemma_render_identity(
    text: Seq<char>,
    entries: Seq<(Seq<char>, Seq<char>)>,
    open: Seq<char>,
    close: Seq<char>,
)
    requires
        delims_ok(open, close),
        scan_spec(text, open, close) == Ok::<Seq<Seq<char>>, ParseError>(Seq::<Seq<char>>::empty()),
    ensures
        insert_all(text, entries, open, close) == text,
    decreases entries.len(),
{
    lemma_find_at(text, open);
    if find_at(text, open) is Some {
        // A found opening either errs or contributes a name, so the scan
        // could not have returned the empty name list.
        assert(scan_spec(text, open, close) != Ok::<Seq<Seq<char>>, ParseError>(
            Seq::<Seq<char>>::empty(),
        )) by {
            let s = find_at(text, open)->Some_0;
            match find_at(text.skip(s), close) {
                None => {},
                Some(off) => {
                    let end = s + off;
                    let name = text.subrange(s + open.len() as int, end);
                    if find_at(name, open) is Some {
                    } else {
                        match scan_spec(text.skip(end + close.len() as int), open, close) {
                            Ok(rest) => {
                                assert((seq![name] + rest).len() > 0);
                            },
                            Err(_) => {},
                        }
                    }
                },
            }
        }
    }
    if entries.len() > 0 {
        lemma_no_open_no_pat(text, open, entries[0].0, close);
        assert(replace_all(text, pat_of(open, entries[0].0, close), entries[0].1) == text);
        lemma_render_identity(text, entries.drop_first(), open, close);
    }
}

/// Deduplication keeps exactly the elements that were there, each once.
pub proof fn lemma_dedup_sound(s: Seq<Seq<char>>)
    ensures
        forall|i: int, j: int|
            0 <= i < j < dedup_spec(s).len() ==> dedup_spec(s)[i] != dedup_spec(s)[j],
        forall|x: Seq<char>| #[trigger] dedup_spec(s).contains(x) <==> s.contains(x),
    decreases s.len(),
{
    if s.len() == 0 {
        assert forall|x: Seq<char>| !s.contains(x) by {}
    } else {
        lemma_dedup_sound(s.drop_last());
        let rest = dedup_spec(s.drop_last());
        assert forall|x: Seq<char>| #[trigger] dedup_spec(s).contains(x) implies s.contains(x) by {
            if rest.contains(x) {
                assert(s.drop_last().contains(x));
                let w = choose|w: int| 0 <= w < s.drop_last().len() && s.drop_last()[w] == x;
                assert(s[w] == x);
            } else {
                assert(x == s.last());
                assert(s[s.len() - 1] == x);
            }
        }
        assert forall|x: Seq<char>| s.contains(x) implies #[trigger] dedup_spec(s).contains(x) by {
            let w = choose|w: int| 0 <= w < s.len() && s[w] == x;
            if w < s.len() - 1 {
                assert(s.drop_last()[w] == x);
                assert(s.drop_last().contains(x));
                assert(rest.contains(x));
                if !rest.contains(s.last()) {
                    let v = choose|v: int| 0 <= v < rest.len() && rest[v] == x;
                    assert(dedup_spec(s)[v] == x);
                }
            } else {
                if rest.contains(s.last()) {
                } else {
                    assert(dedup_spec(s).last() == x);
                }
            }
        }
    }
}

/// Replacing a placeholder in `l + seg + rest` leaves `l` and, unless `seg`
/// is exactly the placeholder replaced, `seg` untouched, and continues in
/// `rest`.
proof fn lemma_replace_decomp(
    l: Seq<char>,
    seg: Seq<char>,
    rest: Seq<char>,
    k: Seq<char>,
    v: Seq<char>,
    m: Seq<char>,
    is_ph: bool,
)
    requires
        no_open_in(l),
        user_clean(k),
        is_ph ==> seg == template_open() + m + template_close() && no_close_in(m) && no_open_in(m),
        !is_ph ==> user_clean(seg) && seg.len() > 0,
    ensures
        (is_ph && k == m) ==> replace_all(
            l + seg + rest,
            pat_of(template_open(), k, template_close()),
            v,
        ) == l + v + replace_all(rest, pat_of(template_open(), k, template_close()), v),
        !(is_ph && k == m) ==> replace_all(
            l + seg + rest,
            pat_of(template_open(), k, template_close()),
            v,
        ) == l + seg + replace_all(rest, pat_of(template_open(), k, template_close()), v),
{
    let w = l + seg + rest;
    let pat = pat_of(template_open(), k, template_close());
    assert(pat.len() == k.len() + 3);
    lemma_find_at(w, pat);
    lemma_find_at(rest, pat);
    assert(w.skip(l.len() + seg.len() as int) =~= rest);
    assert forall|x: int| 0 <= x implies matches_at(rest, pat, x) == matches_at(
        w,
        pat,
        l.len() + seg.len() + x,
    ) by {
        lemma_matches_at_skip(w, pat, l.len() + seg.len() as int, x);
    }
    if is_ph && k == m {
        assert(matches_at(w, pat, l.len() as int)) by {
            assert(pat =~= seg);
            assert(w.subrange(l.len() as int, l.len() + seg.len() as int) =~= seg);
        }
        assert forall|j: int| 0 <= j < l.len() implies !matches_at(w, pat, j) by {
            if matches_at(w, pat, j) {
                lemma_occ_localized(l, seg, rest, k, m, is_ph, j);
            }
        }
        match find_at(w, pat) {
            None => {
                assert(false);
            },
            Some(i) => {
                if i < l.len() {
                    assert(!matches_at(w, pat, i));
                } else if i > l.len() {
                    assert(!matches_at(w, pat, l.len() as int));
                }
                assert(i == l.len());
            },
        }
        assert(find_at(w, pat) == Some(l.len() as int));
        assert(w.take(l.len() as int) =~= l);
        assert(w.skip(l.len() + pat.len() as int) =~= rest);
        assert(replace_all(w, pat, v) == l + v + replace_all(rest, pat, v));
    } else {
        assert forall|j: int| matches_at(w, pat, j) implies j >= l.len() + seg.len() by {
            lemma_occ_localized(l, seg, rest, k, m, is_ph, j);
        }
        match find_at(w, pat) {
            None => {
                assert forall|x: int| !matches_at(rest, pat, x) by {
                    if matches_at(rest, pat, x) {
                        assert(x >= 0);
                        assert(matches_at(w, pat, l.len() + seg.len() + x));
                    }
                }
                assert(find_at(rest, pat) is None) by {
                    if let Some(x) = find_at(rest, pat) {
                        assert(matches_at(rest, pat, x));
                    }
                }
                assert(replace_all(w, pat, v) == w);
                assert(replace_all(rest, pat, v) == rest);
            },
            Some(i) => {
                assert(matches_at(w, pat, i));
                assert(i >= l.len() + seg.len());
                let ii = i - l.len() - seg.len();
                assert(matches_at(rest, pat, ii));
                assert forall|x: int| 0 <= x < ii implies !matches_at(rest, pat, x) by {
                    if matches_at(rest, pat, x) {
                        assert(matches_at(w, pat, l.len() + seg.len() + x));
                        assert(!matches_at(w, pat, l.len() + seg.len() + x));
                    }
                }
                match find_at(rest, pat) {
                    None => {
                        assert(!matches_at(rest, pat, ii));
                        assert(false);
                    },
                    Some(x) => {
                        if x < ii {
                            assert(!matches_at(rest, pat, x));
                        } else if x > ii {
                            assert(!matches_at(rest, pat, ii));
                        }
                        assert(x == ii);
                    },
                }
                assert(w.take(i) =~= l + seg + rest.take(ii));
                assert(w.skip(i + pat.len() as int) =~= rest.skip(ii + pat.len() as int));
                assert(replace_all(w, pat, v) == w.take(i) + v + replace_all(
                    rest.skip(ii + pat.len() as int),
                    pat,
                    v,
                ));
                assert(replace_all(rest, pat, v) == rest.take(ii) + v + replace_all(
                    rest.skip(ii + pat.len() as int),
                    pat,
                    v,
                ));
                assert(l + seg + replace_all(rest, pat, v) =~= w.take(i) + v + replace_all(
                    rest.skip(ii + pat.len() as int),
                    pat,
                    v,
                ));
            },
        }
    }
}

/// A scan skips a prefix in which no opening token starts.
proof fn lemma_scan_shift(a: Seq<char>, b: Seq<char>)
    requires
        forall|j: int| j < a.len() ==> !matches_at(a + b, template_open(), j),
    ensures
        scan_spec(a + b, template_open(), template_close()) == scan_spec(
            b,
            template_open(),
            template_close(),
        ),
{
    lemma_template_delims();
    let w = a + b;
    lemma_find_at(w, template_open());
    lemma_find_at(b, template_open());
    assert(w.skip(a.len() as int) =~= b);
    assert forall|x: int| 0 <= x implies matches_at(b, template_open(), x) == matches_at(
        w,
        template_open(),
        a.len() + x,
    ) by {
        lemma_matches_at_skip(w, template_open(), a.len() as int, x);
    }
    match find_at(b, template_open()) {
        None => {
            assert(find_at(w, template_open()) is None) by {
                if let Some(j) = find_at(w, template_open()) {
                    assert(matches_at(w, template_open(), j));
                    assert(j >= a.len());
                    assert(matches_at(b, template_open(), j - a.len()));
                }
            }
        },
        Some(sb) => {
            assert(matches_at(w, template_open(), a.len() + sb));
            assert forall|j: int| 0 <= j < a.len() + sb implies !matches_at(
                w,
                template_open(),
                j,
            ) by {
                if j >= a.len() {
                    assert(!matches_at(b, template_open(), j - a.len()));
                }
            }
            match find_at(w, template_open()) {
                None => {
                    assert(false);
                },
                Some(i) => {
                    if i < a.len() + sb {
                        assert(!matches_at(w, template_open(), i));
                    } else if i > a.len() + sb {
                        assert(!matches_at(w, template_open(), a.len() + sb));
                    }
                    assert(i == a.len() + sb);
                },
            }
            let s = a.len() + sb;
            assert(w.skip(s) =~= b.skip(sb));
            lemma_find_at(w.skip(s), template_close());
            match find_at(b.skip(sb), template_close()) {
                None => {},
                Some(off) => {
                    assert(matches_at(w.skip(s), template_close(), off));
                    lemma_matches_at_skip(w, template_close(), s, off);
                    assert(matches_at(w, template_close(), s + off));
                    crate::scan::lemma_close_clears_open(
                        w,
                        template_open(),
                        template_close(),
                        s,
                        s + off,
                    );
                    assert(off >= 2);
                    let end_w = s + off;
                    let end_b = sb + off;
                    assert(w.subrange(s + template_open().len() as int, end_w) =~= b.subrange(
                        sb + template_open().len() as int,
                        end_b,
                    ));
                    assert(w.skip(end_w + template_close().len() as int) =~= b.skip(
                        end_b + template_close().len() as int,
                    ));
                },
            }
        },
    }
}

/// The scan of `l + ${m} + tail`, with no opening token starting in `l`:
/// the name `m`, then the scan of the tail.
proof fn lemma_scan_unfold_placeholder(l: Seq<char>, m: Seq<char>, tail: Seq<char>)
    requires
        no_open_in(l),
        no_open_in(m),
        no_close_in(m),
    ensures
        scan_spec(
            l + (template_open() + m + template_close()) + tail,
            template_open(),
            template_close(),
        ) == match scan_spec(tail, template_open(), template_close()) {
            Ok(r) => Ok::<Seq<Seq<char>>, ParseError>(seq![m] + r),
            Err(e) => Err(e),
        },
{
    lemma_template_delims();
    let seg = template_open() + m + template_close();
    let w = l + seg + tail;
    assert(seg.len() == m.len() + 3);
    assert(seg[0] == '$' && seg[1] == '{' && seg[seg.len() - 1] == '}');
    assert(forall|x: int| 0 <= x < m.len() ==> seg[2 + x] == m[x]);
    // The first opening token starts exactly at the placeholder.
    lemma_find_at(w, template_open());
    assert(matches_at(w, template_open(), l.len() as int)) by {
        lemma_open_matches(w, l.len() as int);
        assert(w[l.len() as int] == seg[0]);
        assert(w[l.len() + 1 as int] == seg[1]);
    }
    assert forall|j: int| 0 <= j < l.len() implies !matches_at(w, template_open(), j) by {
        if matches_at(w, template_open(), j) {
            lemma_open_matches(w, j);
            if j + 2 <= l.len() {
                lemma_open_matches(l, j);
                assert(l[j] == w[j] && l[j + 1] == w[j + 1]);
            } else {
                assert(j + 1 == l.len());
                assert(w[j + 1] == seg[0]);
            }
        }
    }
    match find_at(w, template_open()) {
        None => {
            assert(false);
        },
        Some(i) => {
            if i < l.len() {
                assert(!matches_at(w, template_open(), i));
            } else if i > l.len() {
                assert(!matches_at(w, template_open(), l.len() as int));
            }
            assert(i == l.len());
        },
    }
    let s = l.len() as int;
    // The first closing token after it closes the placeholder.
    lemma_find_at(w.skip(s), template_close());
    assert(w.skip(s) =~= seg + tail);
    assert forall|x: int| 0 <= x implies matches_at(w.skip(s), template_close(), x) == matches_at(
        w,
        template_close(),
        s + x,
    ) by {
        lemma_matches_at_skip(w, template_close(), s, x);
    }
    assert(matches_at(w, template_close(), s + 2 + m.len())) by {
        lemma_close_matches(w, s + 2 + m.len());
        assert(w[s + 2 + m.len()] == seg[seg.len() - 1]);
    }
    assert forall|x: int| 0 <= x < 2 + m.len() implies !matches_at(
        w.skip(s),
        template_close(),
        x,
    ) by {
        if matches_at(w, template_close(), s + x) {
            lemma_close_matches(w, s + x);
            assert(w[s + x] == seg[x]);
            if x >= 2 {
                assert(seg[x] == m[x - 2]);
                lemma_close_matches(m, x - 2);
                assert(matches_at(m, template_close(), x - 2));
            }
        }
    }
    match find_at(w.skip(s), template_close()) {
        None => {
            assert(!matches_at(w.skip(s), template_close(), 2 + m.len() as int));
            assert(false);
        },
        Some(off) => {
            if off < 2 + m.len() {
                assert(!matches_at(w.skip(s), template_close(), off));
            } else if off > 2 + m.len() {
                assert(!matches_at(w.skip(s), template_close(), 2 + m.len() as int));
            }
            assert(off == 2 + m.len());
        },
    }
    let end = s + 2 + m.len();
    assert(w.subrange(s + template_open().len() as int, end as int) =~= m);
    assert(find_at(m, template_open()) is None) by {
        lemma_find_at(m, template_open());
        if let Some(x) = find_at(m, template_open()) {
            assert(matches_at(m, template_open(), x));
        }
    }
    assert(w.skip(end + template_close().len() as int) =~= tail);
}

/// The two scopes are textually disjoint: no position opens both an ad-hoc
/// `${...}` placeholder and a workspace `w{...}` placeholder.
pub proof fn lemma_scopes_disjoint(text: Seq<char>, j: int)
    ensures
        !(matches_at(text, template_open(), j) && matches_at(
            text,
            crate::workspaces::mutators::workspace_open(),
            j,
        )),
{
    if matches_at(text, template_open(), j) && matches_at(
        text,
        crate::workspaces::mutators::workspace_open(),
        j,
    ) {
        lemma_open_matches(text, j);
        lemma_matches_chars(text, crate::workspaces::mutators::workspace_open(), j);
        assert(text[j] == 'w');
    }
}

/// Dropping the first entry keeps the entries well formed.
proof fn lemma_entries_ok_drop(entries: Seq<(Seq<char>, Seq<char>)>)
    requires
        entries_ok(entries),
        entries.len() > 0,
    ensures
        entries_ok(entries.drop_first()),
{
    let rest = entries.drop_first();
    assert(forall|i: int| 0 <= i < rest.len() ==> rest[i] == entries[i + 1]);
}

/// What `resolve` hands back is a well-formed value; `None` means no entry
/// bears the key.
proof fn lemma_resolve_props(m: Seq<char>, entries: Seq<(Seq<char>, Seq<char>)>)
    requires
        entries_ok(entries),
    ensures
        match resolve(m, entries) {
            Some(v) => user_clean(v) && v.len() > 0,
            None => forall|i: int| 0 <= i < entries.len() ==> entries[i].0 != m,
        },
    decreases entries.len(),
{
    if entries.len() > 0 && entries[0].0 != m {
        lemma_entries_ok_drop(entries);
        lemma_resolve_props(m, entries.drop_first());
        if resolve(m, entries) is None {
            assert forall|i: int| 0 <= i < entries.len() implies entries[i].0 != m by {
                if i > 0 {
                    assert(entries.drop_first()[i - 1] == entries[i]);
                }
            }
        }
    }
}

/// Folding the entries over `l + seg + tail` with a clean nonempty `seg`
/// leaves `l` and `seg` alone and folds over the tail.
proof fn lemma_fold_clean(l: Seq<char>, seg: Seq<char>, tail: Seq<char>, entries: Seq<(Seq<char>, Seq<char>)>)
    requires
        no_open_in(l),
        user_clean(seg),
        seg.len() > 0,
        entries_ok(entries),
    ensures
        insert_all(l + seg + tail, entries, template_open(), template_close()) == l + seg
            + insert_all(tail, entries, template_open(), template_close()),
    decreases entries.len(),
{
    lemma_template_delims();
    if entries.len() > 0 {
        let k0 = entries[0].0;
        let v0 = entries[0].1;
        lemma_replace_decomp(l, seg, tail, k0, v0, Seq::empty(), false);
        lemma_entries_ok_drop(entries);
        lemma_fold_clean(
            l,
            seg,
            replace_all(tail, pat_of(template_open(), k0, template_close()), v0),
            entries.drop_first(),
        );
    }
}

/// The segment a placeholder turns into: its value when resolved, itself
/// when not.
pub open spec fn seg_of(m: Seq<char>, entries: Seq<(Seq<char>, Seq<char>)>) -> Seq<char> {
    match resolve(m, entries) {
        Some(v) => v,
        None => template_open() + m + template_close(),
    }
}

/// Folding the entries over `l + ${m} + tail`: the placeholder becomes its
/// segment, `l` stays, and the fold continues in the tail.
proof fn lemma_fold_placeholder(l: Seq<char>, m: Seq<char>, tail: Seq<char>, entries: Seq<(Seq<char>, Seq<char>)>)
    requires
        no_open_in(l),
        no_open_in(m),
        no_close_in(m),
        entries_ok(entries),
    ensures
        insert_all(
            l + (template_open() + m + template_close()) + tail,
            entries,
            template_open(),
            template_close(),
        ) == l + seg_of(m, entries) + insert_all(tail, entries, template_open(), template_close()),
    decreases entries.len(),
{
    lemma_template_delims();
    if entries.len() > 0 {
        let k0 = entries[0].0;
        let v0 = entries[0].1;
        lemma_replace_decomp(l, template_open() + m + template_close(), tail, k0, v0, m, true);
        lemma_entries_ok_drop(entries);
        let t1 = replace_all(tail, pat_of(template_open(), k0, template_close()), v0);
        if k0 == m {
            lemma_fold_clean(l, v0, t1, entries.drop_first());
        } else {
            lemma_fold_placeholder(l, m, t1, entries.drop_first());
        }
    }
}

/// Entries none of whose placeholders occur make the whole fold a no-op.
proof fn lemma_insert_nop(w: Seq<char>, entries: Seq<(Seq<char>, Seq<char>)>)
    requires
        forall|i: int|
            0 <= i < entries.len() ==> find_at(
                w,
                pat_of(template_open(), #[trigger] entries[i].0, template_close()),
            ) is None,
    ensures
        insert_all(w, entries, template_open(), template_close()) == w,
    decreases entries.len(),
{
    if entries.len() > 0 {
        let pat = pat_of(template_open(), entries[0].0, template_close());
        assert(pat.len() == entries[0].0.len() + 3);
        assert(find_at(w, pat) is None);
        assert(replace_all(w, pat, entries[0].1) == w);
        let rest = entries.drop_first();
        assert forall|i: int| 0 <= i < rest.len() implies find_at(
            w,
            pat_of(template_open(), #[trigger] rest[i].0, template_close()),
        ) is None by {
            assert(rest[i] == entries[i + 1]);
        }
        lemma_insert_nop(w, rest);
    }
}

/// The backbone of the substitution laws. Rendering a well-formed template
/// with well-formed entries gives a text whose scan holds exactly the
/// unresolved names, in order, and in which no entry's placeholder occurs
/// any more.
pub proof fn lemma_render_structure(text: Seq<char>, entries: Seq<(Seq<char>, Seq<char>)>)
    requires
        scan_spec(text, template_open(), template_close()) is Ok,
        entries_ok(entries),
    ensures
        scan_spec(
            insert_all(text, entries, template_open(), template_close()),
            template_open(),
            template_close(),
        ) == Ok::<Seq<Seq<char>>, ParseError>(
            unresolved_names(
                scan_spec(text, template_open(), template_close())->Ok_0,
                entries,
            ),
        ),
        forall|i: int|
            0 <= i < entries.len() ==> find_at(
                insert_all(text, entries, template_open(), template_close()),
                pat_of(template_open(), #[trigger] entries[i].0, template_close()),
            ) is None,
    decreases text.len(),
{
    lemma_template_delims();
    let names = scan_spec(text, template_open(), template_close())->Ok_0;
    lemma_find_at(text, template_open());
    match find_at(text, template_open()) {
        None => {
            lemma_render_identity(text, entries, template_open(), template_close());
            assert(names =~= Seq::<Seq<char>>::empty());
            assert forall|i: int| 0 <= i < entries.len() implies find_at(
                text,
                pat_of(template_open(), #[trigger] entries[i].0, template_close()),
            ) is None by {
                lemma_no_open_no_pat(text, template_open(), entries[i].0, template_close());
            }
        },
        Some(s) => {
            assert(matches_at(text, template_open(), s));
            lemma_find_at(text.skip(s), template_close());
            match find_at(text.skip(s), template_close()) {
                None => {
                    assert(false);
                },
                Some(off) => {
                    assert(matches_at(text.skip(s), template_close(), off));
                    lemma_matches_at_skip(text, template_close(), s, off);
                    assert(matches_at(text, template_close(), s + off));
                    crate::scan::lemma_close_clears_open(
                        text,
                        template_open(),
                        template_close(),
                        s,
                        s + off,
                    );
                    let end = s + off;
                    let m = text.subrange(s + 2, end);
                    let tail = text.skip(end + 1);
                    if find_at(m, template_open()) is Some {
                        assert(false);
                    }
                    match scan_spec(tail, template_open(), template_close()) {
                        Err(_) => {
                            assert(false);
                        },
                        Ok(names_rest) => {
                            assert(names == seq![m] + names_rest);
                            let l = text.take(s);
                            let seg_ph = template_open() + m + template_close();
                            lemma_matches_chars(text, template_open(), s);
                            lemma_close_matches(text, end);
                            assert(text =~= l + seg_ph + tail);
                            // The literal prefix holds no opening token.
                            assert forall|j: int| !matches_at(l, template_open(), j) by {
                                if matches_at(l, template_open(), j) {
                                    lemma_matches_restrict(text, template_open(), s, j);
                                    assert(matches_at(text, template_open(), j));
                                }
                            }
                            // The name holds no opening token ...
                            assert forall|j: int| !matches_at(m, template_open(), j) by {
                                lemma_find_at(m, template_open());
                            }
                            // ... and no closing token.
                            assert forall|x: int| !matches_at(m, template_close(), x) by {
                                if matches_at(m, template_close(), x) {
                                    lemma_close_matches(m, x);
                                    assert(m[x] == text[s + 2 + x]);
                                    assert(!matches_at(text.skip(s), template_close(), 2 + x));
                                    lemma_matches_at_skip(text, template_close(), s, 2 + x);
                                    lemma_close_matches(text, s + 2 + x);
                                }
                            }
                            lemma_render_structure(tail, entries);
                            lemma_fold_placeholder(l, m, tail, entries);
                            let r_tail = insert_all(
                                tail,
                                entries,
                                template_open(),
                                template_close(),
                            );
                            let rendered = insert_all(
                                text,
                                entries,
                                template_open(),
                                template_close(),
                            );
                            assert(rendered == l + seg_of(m, entries) + r_tail);
                            lemma_resolve_props(m, entries);
                            let is_ph = resolve(m, entries) is None;
                            let seg = seg_of(m, entries);
                            match resolve(m, entries) {
                                Some(v) => {
                                    // No opening token starts inside `l + v`.
                                    assert forall|j: int| j < (l + v).len() implies !matches_at(
                                        (l + v) + r_tail,
                                        template_open(),
                                        j,
                                    ) by {
                                        if matches_at((l + v) + r_tail, template_open(), j) {
                                            lemma_open_matches((l + v) + r_tail, j);
                                            let lv = l + v;
                                            if j + 2 <= l.len() {
                                                lemma_open_matches(l, j);
                                                assert(l[j] == ((l + v) + r_tail)[j]);
                                                assert(l[j + 1] == ((l + v) + r_tail)[j + 1]);
                                            } else if j + 1 == l.len() {
                                                assert(((l + v) + r_tail)[j + 1] == v[0]);
                                            } else {
                                                assert(((l + v) + r_tail)[j] == v[j - l.len()]);
                                            }
                                        }
                                    }
                                    assert((l + v) + r_tail =~= l + v + r_tail);
                                    lemma_scan_shift(l + v, r_tail);
                                    assert(unresolved_names(names, entries) == unresolved_names(
                                        names_rest,
                                        entries,
                                    )) by {
                                        assert(names[0] == m);
                                        assert(names.drop_first() =~= names_rest);
                                    }
                                },
                                None => {
                                    lemma_scan_unfold_placeholder(l, m, r_tail);
                                    assert(unresolved_names(names, entries) == seq![m]
                                        + unresolved_names(names_rest, entries)) by {
                                        assert(names[0] == m);
                                        assert(names.drop_first() =~= names_rest);
                                    }
                                },
                            }
                            // No entry's placeholder occurs in the rendering.
                            assert forall|i: int| 0 <= i < entries.len() implies find_at(
                                rendered,
                                pat_of(template_open(), #[trigger] entries[i].0, template_close()),
                            ) is None by {
                                let pat = pat_of(
                                    template_open(),
                                    entries[i].0,
                                    template_close(),
                                );
                                lemma_find_at(rendered, pat);
                                if let Some(j) = find_at(rendered, pat) {
                                    assert(matches_at(rendered, pat, j));
                                    assert(rendered == l + seg + r_tail);
                                    lemma_occ_localized(
                                        l,
                                        seg,
                                        r_tail,
                                        entries[i].0,
                                        m,
                                        is_ph,
                                        j,
                                    );
                                    if j >= l.len() + seg.len() {
                                        assert(rendered.skip(l.len() + seg.len() as int)
                                            =~= r_tail);
                                        lemma_matches_at_skip(
                                            rendered,
                                            pat,
                                            l.len() + seg.len() as int,
                                            j - l.len() - seg.len(),
                                        );
                                        assert(matches_at(r_tail, pat, j - l.len() - seg.len()));
                                        lemma_find_at(r_tail, pat);
                                        assert(find_at(r_tail, pat) is None);
                                    } else {
                                        assert(is_ph && entries[i].0 == m);
                                        assert(entries[i].0 != m);
                                    }
                                }
                            }
                        },
                    }
                },
            }
        },
    }
}

/// Substitution is idempotent: rendering a rendered template with the same
/// entries changes nothing more.
pub proof fn lemma_render_idempotent(text: Seq<char>, entries: Seq<(Seq<char>, Seq<char>)>)
    requires
        scan_spec(text, template_open(), template_close()) is Ok,
        entries_ok(entries),
    ensures
        insert_all(
            insert_all(text, entries, template_open(), template_close()),
            entries,
            template_open(),
            template_close(),
        ) == insert_all(text, entries, template_open(), template_close()),
{
    lemma_render_structure(text, entries);
    lemma_insert_nop(
        insert_all(text, entries, template_open(), template_close()),
        entries,
    );
}

/// Extraction after rendering yields exactly the names the entries did not
/// resolve, in their original order: resolved placeholders disappear,
/// unresolved ones persist verbatim.
pub proof fn lemma_extract_after_render(text: Seq<char>, entries: Seq<(Seq<char>, Seq<char>)>)
    requires
        scan_spec(text, template_open(), template_close()) is Ok,
        entries_ok(entries),
    ensures
        scan_spec(
            insert_all(text, entries, template_open(), template_close()),
            template_open(),
            template_close(),
        ) == Ok::<Seq<Seq<char>>, ParseError>(
            unresolved_names(
                scan_spec(text, template_open(), template_close())->Ok_0,
                entries,
            ),
        ),
{
    lemma_render_structure(text, entries);
}

} // verus!

//! The delimiter scanner: finds `opening ... closing` placeholder spans in a
//! template string, collects the names between them, and substitutes values
//! for whole placeholders.
//!
//! The executable functions are specified against a small mathematical model
//! on `Seq<char>`: [`find_at`] (first occurrence of a pattern),
//! [`scan_spec`] (the names of all placeholders, or a parse error),
//! [`replace_all`] (literal all-occurrences replacement) and
//! [`insert_all`] (replacement folded over a list of key/value entries).

use vstd::prelude::*;

verus! {

/// A placeholder could not be parsed out of a template.
#[derive(Clone, Copy, Debug, PartialEq, Eq, Structural)]
pub enum ParseError {
    /// An opening delimiter with no closing delimiter after it.
    Unterminated,
    /// A second opening delimiter before the first closing one.
    Nested,
}

/// `pat` occurs in `text` starting at position `i`.
pub open spec fn matches_at(text: Seq<char>, pat: Seq<char>, i: int) -> bool {
    &&& 0 <= i
    &&& i + pat.len() <= text.len()
    &&& text.subrange(i, i + pat.len() as int) == pat
}

/// Position of the first occurrence of `pat` in `text`, if any.
pub open spec fn find_at(text: Seq<char>, pat: Seq<char>) -> Option<int>
    decreases text.len(),
{
    if matches_at(text, pat, 0) {
        Some(0)
    } else if text.len() == 0 {
        None
    } else {
        match find_at(text.drop_first(), pat) {
            Some(i) => Some(i + 1),
            None => None,
        }
    }
}

/// Occurrences in a suffix are occurrences in the whole string, shifted.
pub proof fn lemma_matches_at_skip(text: Seq<char>, pat: Seq<char>, k: int, j: int)
    requires
        0 <= k <= text.len(),
        0 <= j,
    ensures
        matches_at(text.skip(k), pat, j) == matches_at(text, pat, k + j),
{
    if j + pat.len() <= text.skip(k).len() {
        assert(text.skip(k).subrange(j, j + pat.len() as int) =~= text.subrange(
            k + j,
            k + j + pat.len() as int,
        ));
    }
}

/// `find_at` returns the least occurrence position, or `None` when there is
/// no occurrence at all.
pub proof fn lemma_find_at(text: Seq<char>, pat: Seq<char>)
    ensures
        match find_at(text, pat) {
            Some(i) => matches_at(text, pat, i) && forall|j: int|
                0 <= j < i ==> !matches_at(text, pat, j),
            None => forall|j: int| !matches_at(text, pat, j),
        },
    decreases text.len(),
{
    if matches_at(text, pat, 0) {
    } else if text.len() == 0 {
        assert forall|j: int| !matches_at(text, pat, j) by {
            if 0 <= j && j + pat.len() <= text.len() {
                assert(j == 0);
            }
        }
    } else {
        lemma_find_at(text.drop_first(), pat);
        assert forall|j: int| 1 <= j implies matches_at(text.drop_first(), pat, j - 1)
            == matches_at(text, pat, j) by {
            lemma_matches_at_skip(text, pat, 1, j - 1);
        }
        match find_at(text.drop_first(), pat) {
            Some(i) => {
                assert(matches_at(text, pat, i + 1));
                assert forall|j: int| 0 <= j < i + 1 implies !matches_at(text, pat, j) by {
                    if j >= 1 {
                        assert(!matches_at(text.drop_first(), pat, j - 1));
                    }
                }
            },
            None => {
                assert forall|j: int| !matches_at(text, pat, j) by {
                    if j >= 1 {
                        assert(!matches_at(text.drop_first(), pat, j - 1));
                    }
                }
            },
        }
    }
}

/// The first occurrence of `pat` at or after position `k` of `text`, read
/// off `find_at` of the suffix.
pub proof fn lemma_find_from(text: Seq<char>, pat: Seq<char>, k: int)
    requires
        0 <= k <= text.len(),
    ensures
        match find_at(text.skip(k), pat) {
            Some(off) => 0 <= off && matches_at(text, pat, k + off) && forall|j: int|
                k <= j < k + off ==> !matches_at(text, pat, j),
            None => forall|j: int| j >= k ==> !matches_at(text, pat, j),
        },
{
    lemma_find_at(text.skip(k), pat);
    assert forall|j: int| k <= j implies matches_at(text.skip(k), pat, j - k) == matches_at(
        text,
        pat,
        j,
    ) by {
        lemma_matches_at_skip(text, pat, k, j - k);
    }
}

/// A sane delimiter pair: both tokens are nonempty, and the closing token
/// can never begin inside an occurrence of the opening token (so the first
/// closing position at or after an opening lies beyond the whole opening).
pub open spec fn overlap_breaks(open: Seq<char>, close: Seq<char>, k: int) -> bool {
    exists|j: int| 0 <= j < close.len() && k + j < open.len() && close[j] != #[trigger] open[k + j]
}

pub open spec fn delims_ok(open: Seq<char>, close: Seq<char>) -> bool {
    &&& open.len() > 0
    &&& close.len() > 0
    &&& forall|k: int| 0 <= k < open.len() ==> #[trigger] overlap_breaks(open, close, k)
}

/// With a sane delimiter pair, the first closing occurrence at or after an
/// opening occurrence starts past the end of the opening token.
pub proof fn lemma_close_clears_open(text: Seq<char>, open: Seq<char>, close: Seq<char>, s: int, e: int)
    requires
        delims_ok(open, close),
        matches_at(text, open, s),
        matches_at(text, close, e),
        s <= e,
    ensures
        e >= s + open.len(),
{
    if e < s + open.len() {
        let k = e - s;
        assert(overlap_breaks(open, close, k));
        let j = choose|j: int|
            0 <= j < close.len() && k + j < open.len() && close[j] != #[trigger] open[k + j];
        assert(text.subrange(s, s + open.len() as int) == open);
        assert(open[k + j] == text.subrange(s, s + open.len() as int)[k + j]);
        assert(text.subrange(e, e + close.len() as int) == close);
        assert(close[j] == text.subrange(e, e + close.len() as int)[j]);
        assert(text[s + (k + j)] == text[e + j]);
    }
}

/// The names of all placeholders of `text`, in scan order and with
/// duplicates, or the parse error the scan runs into.
///
/// The scan repeatedly takes the first occurrence of `open`; the placeholder
/// ends at the next occurrence of `close`; a missing `close` or a second
/// `open` strictly inside the span is a parse error, and the scan resumes
/// right after the closing token.
pub open spec fn scan_spec(text: Seq<char>, open: Seq<char>, close: Seq<char>) -> Result<
    Seq<Seq<char>>,
    ParseError,
>
    decreases text.len(),
        when delims_ok(open, close)
        via scan_spec_decreases
{
    match find_at(text, open) {
        None => Ok(Seq::empty()),
        Some(s) => match find_at(text.skip(s), close) {
            None => Err(ParseError::Unterminated),
            Some(off) => {
                let end = s + off;
                let name = text.subrange(s + open.len() as int, end);
                if find_at(name, open) is Some {
                    Err(ParseError::Nested)
                } else {
                    match scan_spec(text.skip(end + close.len() as int), open, close) {
                        Ok(rest) => Ok(seq![name] + rest),
                        Err(e) => Err(e),
                    }
                }
            },
        },
    }
}

#[via_fn]
proof fn scan_spec_decreases(text: Seq<char>, open: Seq<char>, close: Seq<char>) {
    lemma_find_at(text, open);
    if let Some(s) = find_at(text, open) {
        lemma_find_from(text, close, s);
        if let Some(off) = find_at(text.skip(s), close) {
            assert(matches_at(text, close, s + off));
        }
    }
}

/// Keeps the first occurrence of every element, in order.
pub open spec fn dedup_spec(s: Seq<Seq<char>>) -> Seq<Seq<char>>
    decreases s.len(),
{
    if s.len() == 0 {
        Seq::empty()
    } else {
        let rest = dedup_spec(s.drop_last());
        if rest.contains(s.last()) {
            rest
        } else {
            rest.push(s.last())
        }
    }
}

/// Literal, non-overlapping, left-to-right replacement of every occurrence
/// of `pat` by `repl`.
pub open spec fn replace_all(text: Seq<char>, pat: Seq<char>, repl: Seq<char>) -> Seq<char>
    decreases text.len(),
        when pat.len() > 0
        via replace_all_decreases
{
    match find_at(text, pat) {
        None => text,
        Some(i) => text.take(i) + repl + replace_all(
            text.skip(i + pat.len() as int),
            pat,
            repl,
        ),
    }
}

#[via_fn]
proof fn replace_all_decreases(text: Seq<char>, pat: Seq<char>, repl: Seq<char>) {
    lemma_find_at(text, pat);
}

/// The whole placeholder for key `k`.
pub open spec fn pat_of(open: Seq<char>, k: Seq<char>, close: Seq<char>) -> Seq<char> {
    open + k + close
}

/// `replace_all` folded over the entries of a value map, in entry order:
/// the placeholder of each key is replaced by that key's value.
pub open spec fn insert_all(
    text: Seq<char>,
    entries: Seq<(Seq<char>, Seq<char>)>,
    open: Seq<char>,
    close: Seq<char>,
) -> Seq<char>
    decreases entries.len(),
{
    if entries.len() == 0 {
        text
    } else {
        insert_all(
            replace_all(text, pat_of(open, entries[0].0, close), entries[0].1),
            entries.drop_first(),
            open,
            close,
        )
    }
}

/// Unrolling `insert_all` from the back: processing one more entry applies
/// one more `replace_all` to the result so far.
pub proof fn lemma_insert_all_push(
    text: Seq<char>,
    entries: Seq<(Seq<char>, Seq<char>)>,
    entry: (Seq<char>, Seq<char>),
    open: Seq<char>,
    close: Seq<char>,
)
    requires
        open.len() > 0,
    ensures
        insert_all(text, entries.push(entry), open, close) == replace_all(
            insert_all(text, entries, open, close),
            pat_of(open, entry.0, close),
            entry.1,
        ),
    decreases entries.len(),
{
    if entries.len() == 0 {
        reveal_with_fuel(insert_all, 2);
        assert(entries.push(entry).drop_first() =~= Seq::<(Seq<char>, Seq<char>)>::empty());
        assert(entries.push(entry)[0] == entry);
    } else {
        assert(entries.push(entry)[0] == entries[0]);
        assert(entries.push(entry).drop_first() =~= entries.drop_first().push(entry));
        lemma_insert_all_push(
            replace_all(text, pat_of(open, entries[0].0, close), entries[0].1),
            entries.drop_first(),
            entry,
            open,
            close,
        );
    }
}

/// Does `pat` occur in `text` at position `i`? Checked character by
/// character.
fn is_match_at(text: &str, pat: &str, i: usize) -> (r: bool)
    requires
        i + pat@.len() <= text@.len(),
        text@.len() <= usize::MAX,
    ensures
        r == matches_at(text@, pat@, i as int),
{
    let pat_len = pat.unicode_len();
    let mut j: usize = 0;
    while j < pat_len
        invariant
            j <= pat_len,
            pat_len == pat@.len(),
            i + pat_len <= text@.len(),
            text@.len() <= usize::MAX,
            forall|m: int| 0 <= m < j ==> text@[i + m] == pat@[m],
        decreases pat_len - j,
    {
        if text.get_char(i + j) != pat.get_char(j) {
            assert(text@.subrange(i as int, i + pat@.len() as int)[j as int] == text@[i + j]);
            return false;
        }
        j += 1;
    }
    assert(text@.subrange(i as int, i + pat@.len() as int) =~= pat@);
    true
}

/// The first occurrence of `pat` at or after position `from` of `text`.
fn find_str(text: &str, pat: &str, from: usize) -> (r: Option<usize>)
    requires
        from <= text@.len(),
        pat@.len() > 0,
    ensures
        match r {
            Some(i) => from <= i && i + pat@.len() <= text@.len() && matches_at(
                text@,
                pat@,
                i as int,
            ) && forall|j: int| from <= j < i ==> !matches_at(text@, pat@, j),
            None => forall|j: int| j >= from ==> !matches_at(text@, pat@, j),
        },
{
    let text_len = text.unicode_len();
    let pat_len = pat.unicode_len();
    if pat_len > text_len {
        return None;
    }
    let last = text_len - pat_len;
    if from > last {
        return None;
    }
    let mut i: usize = from;
    while i <= last
        invariant
            from <= i,
            text_len == text@.len(),
            pat_len == pat@.len(),
            pat_len >= 1,
            last == text_len - pat_len,
            i <= last + 1,
            forall|j: int| from <= j < i ==> !matches_at(text@, pat@, j),
        decreases last + 1 - i,
    {
        if is_match_at(text, pat, i) {
            return Some(i);
        }
        i += 1;
    }
    None
}

/// Scans `templated` for `opening ... closing` placeholders and returns the
/// names between the delimiters, first occurrence of each name first.
///
/// The result is exactly the scan of the model: on success, the returned
/// names are [`scan_spec`]'s names with later duplicates dropped; the scan's
/// parse error is returned unchanged.
pub(crate) fn extract_names(templated: &str, opening: &str, closing: &str) -> (r: Result<
    Vec<String>,
    ParseError,
>)
    requires
        delims_ok(opening@, closing@),
    ensures
        match r {
            Ok(names) => scan_spec(templated@, opening@, closing@) matches Ok(all)
                && names.deep_view() == dedup_spec(all),
            Err(e) => scan_spec(templated@, opening@, closing@) == Err::<
                Seq<Seq<char>>,
                ParseError,
            >(e),
        },
{
    let open_len = opening.unicode_len();
    let close_len = closing.unicode_len();
    let mut cur: String = templated.to_owned();
    let mut names: Vec<String> = Vec::new();
    let ghost mut collected: Seq<Seq<char>> = Seq::empty();
    loop
        invariant
            delims_ok(opening@, closing@),
            open_len == opening@.len(),
            close_len == closing@.len(),
            names.deep_view() == dedup_spec(collected),
            match scan_spec(templated@, opening@, closing@) {
                Ok(all) => scan_spec(cur@, opening@, closing@) matches Ok(rest) && all
                    == collected + rest,
                Err(e) => scan_spec(cur@, opening@, closing@) == Err::<
                    Seq<Seq<char>>,
                    ParseError,
                >(e),
            },
        decreases cur@.len(),
    {
        let cur_len = cur.unicode_len();
        let start = match find_str(cur.as_str(), opening, 0) {
            Some(s) => s,
            None => {
                proof {
                    lemma_find_at(cur@, opening@);
                    assert(find_at(cur@, opening@) is None);
                    assert(collected + Seq::<Seq<char>>::empty() =~= collected);
                }
                return Ok(names);
            },
        };
        proof {
            lemma_find_at(cur@, opening@);
            assert(find_at(cur@, opening@) == Some(start as int));
        }
        let end = match find_str(cur.as_str(), closing, start) {
            Some(e) => e,
            None => {
                proof {
                    lemma_find_from(cur@, closing@, start as int);
                    assert(find_at(cur@.skip(start as int), closing@) is None);
                }
                return Err(ParseError::Unterminated);
            },
        };
        proof {
            lemma_find_from(cur@, closing@, start as int);
            if let Some(off) = find_at(cur@.skip(start as int), closing@) {
                assert(matches_at(cur@, closing@, start + off));
                assert(matches_at(cur@, closing@, end as int));
                if start + off < end {
                    assert(!matches_at(cur@, closing@, start + off));
                }
                if end < start + off {
                    assert(!matches_at(cur@, closing@, end as int));
                }
                assert(start + off == end as int);
            } else {
                assert(!matches_at(cur@, closing@, end as int));
            }
            lemma_close_clears_open(cur@, opening@, closing@, start as int, end as int);
        }
        let name = cur.as_str().substring_char(start + open_len, end).to_owned();
        if find_str(name.as_str(), opening, 0).is_some() {
            proof {
                lemma_find_at(name@, opening@);
            }
            return Err(ParseError::Nested);
        }
        proof {
            lemma_find_at(name@, opening@);
            assert(find_at(name@, opening@) is None);
        }
        let ghost prev_names = names.deep_view();
        let mut already = false;
        let mut i: usize = 0;
        while i < names.len()
            invariant
                0 <= i <= names.len(),
                names.deep_view() == prev_names,
                already == exists|j: int| 0 <= j < i && names.deep_view()[j] == name@,
            decreases names.len() - i,
        {
            if crate::strutil::str_eq(names[i].as_str(), name.as_str()) {
                assert(names.deep_view()[i as int] == name@);
                already = true;
            }
            i += 1;
        }
        assert(already == names.deep_view().contains(name@));
        if !already {
            names.push(name.clone());
        }
        let next = cur.as_str().substring_char(end + close_len, cur_len).to_owned();
        proof {
            let prev = collected;
            collected = collected.push(name@);
            assert(collected.drop_last() =~= prev);
            assert(collected.last() == name@);
            if prev_names.contains(name@) {
                assert(dedup_spec(collected) == dedup_spec(prev));
            } else {
                assert(dedup_spec(collected) == dedup_spec(prev).push(name@));
                assert(names.deep_view() =~= dedup_spec(prev).push(name@));
            }
            // One unfolding of the scan at `cur`.
            let rest_text = cur@.skip(end + close_len as int);
            assert(next@ =~= rest_text);
            assert(cur@.subrange(start + open_len as int, end as int) == name@);
            match scan_spec(rest_text, opening@, closing@) {
                Ok(rest2) => {
                    assert(scan_spec(cur@, opening@, closing@) == Ok::<Seq<Seq<char>>, ParseError>(
                        seq![name@] + rest2,
                    ));
                    assert(prev + (seq![name@] + rest2) =~= collected + rest2);
                },
                Err(e) => {
                    assert(scan_spec(cur@, opening@, closing@) == Err::<
                        Seq<Seq<char>>,
                        ParseError,
                    >(e));
                },
            }
        }
        cur = next;
    }
}

/// The names found across a whole argument list: each argument contributes
/// the names of its own scan, deduplicated within the argument, and the
/// first argument that fails to parse decides the error.
pub open spec fn scan_args_spec(
    args: Seq<Seq<char>>,
    open: Seq<char>,
    close: Seq<char>,
) -> Result<Seq<Seq<char>>, ParseError>
    decreases args.len(),
{
    if args.len() == 0 {
        Ok(Seq::empty())
    } else {
        match scan_spec(args[0], open, close) {
            Err(e) => Err(e),
            Ok(first) => match scan_args_spec(args.drop_first(), open, close) {
                Err(e) => Err(e),
                Ok(rest) => Ok(dedup_spec(first) + rest),
            },
        }
    }
}

/// Unrolling `scan_args_spec` from the back, one argument at a time.
pub proof fn lemma_scan_args_push(
    args: Seq<Seq<char>>,
    arg: Seq<char>,
    open: Seq<char>,
    close: Seq<char>,
)
    requires
        scan_args_spec(args, open, close) is Ok,
    ensures
        scan_args_spec(args.push(arg), open, close) == match scan_spec(arg, open, close) {
            Err(e) => Err::<Seq<Seq<char>>, ParseError>(e),
            Ok(names) => Ok(scan_args_spec(args, open, close)->Ok_0 + dedup_spec(names)),
        },
    decreases args.len(),
{
    if args.len() == 0 {
        reveal_with_fuel(scan_args_spec, 2);
        assert(args.push(arg)[0] == arg);
        assert(args.push(arg).drop_first() =~= Seq::<Seq<char>>::empty());
        match scan_spec(arg, open, close) {
            Err(e) => {},
            Ok(names) => {
                assert(Seq::<Seq<char>>::empty() + dedup_spec(names) =~= dedup_spec(names));
                assert(scan_args_spec(args, open, close)->Ok_0 + dedup_spec(names) =~= dedup_spec(
                    names,
                ));
            },
        }
    } else {
        assert(args.push(arg)[0] == args[0]);
        assert(args.push(arg).drop_first() =~= args.drop_first().push(arg));
        lemma_scan_args_push(args.drop_first(), arg, open, close);
        match scan_spec(arg, open, close) {
            Err(e) => {},
            Ok(names) => {
                let first = dedup_spec(scan_spec(args[0], open, close)->Ok_0);
                let rest = scan_args_spec(args.drop_first(), open, close)->Ok_0;
                assert(first + (rest + dedup_spec(names)) =~= (first + rest) + dedup_spec(names));
            },
        }
    }
}

/// Appends to `names` the strings of `chunk` that it does not hold yet, in
/// order: the result stays the deduplication of everything seen so far.
pub(crate) fn append_dedup(
    names: &mut Vec<String>,
    chunk: &Vec<String>,
    Ghost(processed): Ghost<Seq<Seq<char>>>,
)
    requires
        old(names).deep_view() == dedup_spec(processed),
    ensures
        final (names).deep_view() == dedup_spec(processed + chunk.deep_view()),
{
    let mut i: usize = 0;
    while i < chunk.len()
        invariant
            i <= chunk@.len(),
            names.deep_view() == dedup_spec(processed + chunk.deep_view().take(i as int)),
        decreases chunk@.len() - i,
    {
        let ghost sofar = processed + chunk.deep_view().take(i as int);
        let present = crate::strutil::contains_str(names, chunk[i].as_str());
        if !present {
            names.push(chunk[i].clone());
        }
        proof {
            let x = chunk.deep_view()[i as int];
            assert(chunk@[i as int]@ == x);
            let next = processed + chunk.deep_view().take(i + 1);
            assert(next =~= sofar.push(x));
            assert(next.drop_last() =~= sofar);
            assert(next.last() == x);
            if dedup_spec(sofar).contains(x) {
                assert(dedup_spec(next) == dedup_spec(sofar));
            } else {
                assert(dedup_spec(next) == dedup_spec(sofar).push(x));
                assert(names.deep_view() =~= dedup_spec(sofar).push(x));
            }
        }
        i += 1;
    }
    proof {
        assert(processed + chunk.deep_view().take(chunk@.len() as int) =~= processed
            + chunk.deep_view());
    }
}

/// Scans every argument of a template for `opening ... closing` placeholders
/// and collects the names across the whole argument list, duplicates
/// dropped, first occurrence first.
pub(crate) fn extract_names_args(args: &Vec<String>, opening: &str, closing: &str) -> (r: Result<
    Vec<String>,
    ParseError,
>)
    requires
        delims_ok(opening@, closing@),
    ensures
        match r {
            Ok(names) => scan_args_spec(args.deep_view(), opening@, closing@) matches Ok(all)
                && names.deep_view() == dedup_spec(all),
            Err(e) => scan_args_spec(args.deep_view(), opening@, closing@) == Err::<
                Seq<Seq<char>>,
                ParseError,
            >(e),
        },
{
    let mut names: Vec<String> = Vec::new();
    let ghost mut raw: Seq<Seq<char>> = Seq::empty();
    assert(names.deep_view() =~= dedup_spec(raw));
    let mut i: usize = 0;
    while i < args.len()
        invariant
            delims_ok(opening@, closing@),
            i <= args@.len(),
            scan_args_spec(args.deep_view().take(i as int), opening@, closing@) == Ok::<
                Seq<Seq<char>>,
                ParseError,
            >(raw),
            names.deep_view() == dedup_spec(raw),
        decreases args@.len() - i,
    {
        let chunk = match extract_names(args[i].as_str(), opening, closing) {
            Ok(chunk) => chunk,
            Err(e) => {
                proof {
                    lemma_scan_args_push(
                        args.deep_view().take(i as int),
                        args.deep_view()[i as int],
                        opening@,
                        closing@,
                    );
                    assert(args.deep_view().take(i + 1) =~= args.deep_view().take(i as int).push(
                        args.deep_view()[i as int],
                    ));
                    lemma_scan_args_prefix_err(args.deep_view(), i + 1, opening@, closing@, e);
                }
                return Err(e);
            },
        };
        proof {
            lemma_scan_args_push(
                args.deep_view().take(i as int),
                args.deep_view()[i as int],
                opening@,
                closing@,
            );
            assert(args.deep_view().take(i + 1) =~= args.deep_view().take(i as int).push(
                args.deep_view()[i as int],
            ));
        }
        let ghost chunk_names = dedup_spec(scan_spec(args.deep_view()[i as int], opening@, closing@)->Ok_0);
        assert(chunk.deep_view() == chunk_names);
        append_dedup(&mut names, &chunk, Ghost(raw));
        proof {
            raw = raw + chunk_names;
        }
        i += 1;
    }
    proof {
        assert(args.deep_view().take(args@.len() as int) =~= args.deep_view());
    }
    Ok(names)
}

/// A parse error on some prefix of the arguments is the error of the whole
/// argument list.
proof fn lemma_scan_args_prefix_err(
    args: Seq<Seq<char>>,
    n: int,
    open: Seq<char>,
    close: Seq<char>,
    e: ParseError,
)
    requires
        0 <= n <= args.len(),
        scan_args_spec(args.take(n), open, close) == Err::<Seq<Seq<char>>, ParseError>(e),
    ensures
        scan_args_spec(args, open, close) == Err::<Seq<Seq<char>>, ParseError>(e),
    decreases n,
{
    if n == 0 {
    } else {
        assert(args.take(n)[0] == args[0]);
        if scan_spec(args[0], open, close) is Err {
        } else {
            assert(args.take(n).drop_first() =~= args.drop_first().take(n - 1));
            lemma_scan_args_prefix_err(args.drop_first(), n - 1, open, close, e);
        }
    }
}

/// Replaces every occurrence of `pat` in `text` by `repl`, left to right and
/// without overlap, exactly as [`replace_all`] says.
pub(crate) fn replace_all_str(text: &str, pat: &str, repl: &str) -> (r: String)
    requires
        pat@.len() > 0,
    ensures
        r@ == replace_all(text@, pat@, repl@),
{
    let pat_len = pat.unicode_len();
    let mut out = String::new();
    let mut cur: String = text.to_owned();
    loop
        invariant
            pat_len == pat@.len(),
            pat_len > 0,
            out@ + replace_all(cur@, pat@, repl@) == replace_all(text@, pat@, repl@),
        decreases cur@.len(),
    {
        let cur_len = cur.unicode_len();
        match find_str(cur.as_str(), pat, 0) {
            None => {
                proof {
                    lemma_find_at(cur@, pat@);
                    assert(find_at(cur@, pat@) is None);
                    assert(replace_all(cur@, pat@, repl@) == cur@);
                }
                out.append(cur.as_str());
                return out;
            },
            Some(i) => {
                proof {
                    lemma_find_at(cur@, pat@);
                    if let Some(fi) = find_at(cur@, pat@) {
                        if fi < i {
                            assert(!matches_at(cur@, pat@, fi));
                        }
                        if (i as int) < fi {
                            assert(!matches_at(cur@, pat@, i as int));
                        }
                    } else {
                        assert(!matches_at(cur@, pat@, i as int));
                    }
                    assert(find_at(cur@, pat@) == Some(i as int));
                }
                let ghost out0 = out@;
                out.append(cur.as_str().substring_char(0, i));
                out.append(repl);
                let next = cur.as_str().substring_char(i + pat_len, cur_len).to_owned();
                proof {
                    assert(next@ =~= cur@.skip(i + pat_len as int));
                    assert(cur@.subrange(0, i as int) == cur@.take(i as int));
                    assert(replace_all(cur@, pat@, repl@) == cur@.take(i as int) + repl@
                        + replace_all(next@, pat@, repl@));
                    assert(out@ + replace_all(next@, pat@, repl@) =~= out0 + replace_all(
                        cur@,
                        pat@,
                        repl@,
                    ));
                }
                cur = next;
            },
        }
    }
}

/// For each `(key, value)` entry, in entry order, replaces every occurrence
/// of the placeholder `opening + key + closing` by `value`.
pub(crate) fn insert_entries(
    templated: &str,
    entries: &Vec<(String, String)>,
    opening: &str,
    closing: &str,
) -> (r: String)
    requires
        opening@.len() > 0,
    ensures
        r@ == insert_all(templated@, entries.deep_view(), opening@, closing@),
{
    let mut cur: String = templated.to_owned();
    let mut idx: usize = 0;
    while idx < entries.len()
        invariant
            opening@.len() > 0,
            idx <= entries.len(),
            cur@ == insert_all(templated@, entries.deep_view().take(idx as int), opening@, closing@),
        decreases entries.len() - idx,
    {
        let mut pat: String = opening.to_owned();
        pat.append(entries[idx].0.as_str());
        pat.append(closing);
        assert(pat@ == pat_of(opening@, entries.deep_view()[idx as int].0, closing@));
        let replaced = replace_all_str(cur.as_str(), pat.as_str(), entries[idx].1.as_str());
        proof {
            lemma_insert_all_push(
                templated@,
                entries.deep_view().take(idx as int),
                entries.deep_view()[idx as int],
                opening@,
                closing@,
            );
            assert(entries.deep_view().take(idx + 1) =~= entries.deep_view().take(
                idx as int,
            ).push(entries.deep_view()[idx as int]));
        }
        cur = replaced;
        idx += 1;
    }
    proof {
        assert(entries.deep_view().take(entries.len() as int) =~= entries.deep_view());
    }
    cur
}

} // verus!

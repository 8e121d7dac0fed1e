//! URL validation, URL-to-filename conversion and URL list parsing.

use vstd::prelude::*;

use crate::error::{FetchError, FetchErrorView};
use crate::text::{
    alphanumeric, byte_len, occurs_at, char_width_of, chars_of, lemma_byte_len_concat, lemma_byte_len_push,
    lemma_char_width, lemma_prefix_bytes_increase, lemma_prefix_bytes_mono, find_from, has_prefix, has_suffix, is_alphanumeric,
    lemma_trim_idempotent, push_char, range_find_from, range_has_suffix, line_ranges, lines, push_str, range_has_prefix,
    string_of_range, trim, trim_range, trim_str,
};

verus! {

// ---------------------------------------------------------------------------
// URL lists
// ---------------------------------------------------------------------------

/// A trimmed line that names a URL: not empty and not a `#` comment.
pub open spec fn is_url_entry(t: Seq<char>) -> bool {
    t.len() > 0 && t[0] != '#'
}

/// The URLs of a URL list: its lines, trimmed, without blank lines and
/// comments, in order.
pub open spec fn url_entries(contents: Seq<char>) -> Seq<Seq<char>> {
    lines(contents).map_values(|l: Seq<char>| trim(l)).filter(|t: Seq<char>| is_url_entry(t))
}

/// Parse URLs from a file (one per line, supports comments).
pub fn parse_url_file(contents: &str) -> (urls: Vec<String>)
    ensures
        urls@.map_values(|u: String| u@) == url_entries(contents@),
{
    let v = chars_of(contents);
    let ranges = line_ranges(&v);
    let ghost ls = lines(v@);
    let ghost pred = |t: Seq<char>| is_url_entry(t);
    let ghost tr = |l: Seq<char>| trim(l);
    let mut urls: Vec<String> = Vec::new();
    let mut k: usize = 0;
    assert(ls.take(0).map_values(tr).filter(pred) =~= Seq::<Seq<char>>::empty()) by {
        reveal(Seq::filter);
    }
    while k < ranges.len()
        invariant
            k <= ranges@.len(),
            ls == lines(v@),
            pred == (|t: Seq<char>| is_url_entry(t)),
            tr == (|l: Seq<char>| trim(l)),
            ranges@.len() == ls.len(),
            forall|j: int|
                0 <= j < ranges@.len() ==> {
                    &&& (#[trigger] ranges@[j]).0 <= ranges@[j].1 <= v@.len()
                    &&& v@.subrange(ranges@[j].0 as int, ranges@[j].1 as int) == ls[j]
                },
            urls@.map_values(|u: String| u@) == ls.take(k as int).map_values(tr).filter(pred),
        decreases ranges@.len() - k,
    {
        let (lo, hi) = ranges[k];
        let (a, b) = trim_range(&v, lo, hi);
        let ghost t = trim(ls[k as int]);
        let ghost before = urls@.map_values(|u: String| u@);
        proof {
            assert(ls.take(k + 1).map_values(tr).len() == k + 1);
            assert forall|i: int| 0 <= i < k + 1 implies ls.take(k + 1).map_values(tr)[i]
                == ls.take(k as int).map_values(tr).push(t)[i] by {
                if i < k {
                    assert(ls.take(k + 1)[i] == ls.take(k as int)[i]);
                } else {
                    assert(ls.take(k + 1)[i] == ls[k as int]);
                }
            }
            assert(ls.take(k + 1).map_values(tr) =~= ls.take(k as int).map_values(tr).push(t));
            assert(v@.subrange(a as int, b as int) == t);
            ls.take(k as int).map_values(tr).lemma_filter_push(t, pred);
        }
        if a < b && v[a] != '#' {
            let u = string_of_range(&v, a, b);
            urls.push(u);
            proof {
                assert(t[0] == v@[a as int]);
                assert(urls@.map_values(|u: String| u@) =~= before.push(t));
            }
        } else {
            proof {
                if a < b {
                    assert(t[0] == v@[a as int]);
                }
                assert(!pred(t));
            }
        }
        k = k + 1;
    }
    assert(ls.take(ls.len() as int) =~= ls);
    urls
}

/// Every URL of a parsed list is trimmed, non-empty and not a comment, and
/// the list has no more entries than the input has lines.
pub proof fn lemma_url_entries_shape(contents: Seq<char>)
    ensures
        url_entries(contents).len() <= lines(contents).len(),
        forall|i: int|
            0 <= i < url_entries(contents).len() ==> {
                &&& is_url_entry(#[trigger] url_entries(contents)[i])
                &&& trim(url_entries(contents)[i]) == url_entries(contents)[i]
            },
{
    let pred = |t: Seq<char>| is_url_entry(t);
    let m = lines(contents).map_values(|l: Seq<char>| trim(l));
    m.lemma_filter_len(pred);
    assert forall|i: int| 0 <= i < url_entries(contents).len() implies {
        &&& is_url_entry(#[trigger] url_entries(contents)[i])
        &&& trim(url_entries(contents)[i]) == url_entries(contents)[i]
    } by {
        m.lemma_filter_pred(pred, i);
        let e = url_entries(contents)[i];
        lemma_filter_from_map(m, pred, i);
        let j = choose|j: int| 0 <= j < m.len() && m[j] == e;
        lemma_trim_idempotent(lines(contents)[j]);
    }
}

/// The number of lines of `ls` whose trimmed form is not empty and does not
/// start with `'#'`.
pub open spec fn url_line_count(ls: Seq<Seq<char>>) -> nat
    decreases ls.len(),
{
    if ls.len() == 0 {
        0
    } else {
        url_line_count(ls.drop_last()) + if trim(ls.last()).len() > 0 && trim(ls.last())[0]
            != '#' {
            1nat
        } else {
            0nat
        }
    }
}

proof fn lemma_url_line_count(ls: Seq<Seq<char>>)
    ensures
        ls.map_values(|l: Seq<char>| trim(l)).filter(|t: Seq<char>| is_url_entry(t)).len()
            == url_line_count(ls),
    decreases ls.len(),
{
    let pred = |t: Seq<char>| is_url_entry(t);
    let tr = |l: Seq<char>| trim(l);
    if ls.len() == 0 {
        assert(ls.map_values(tr) =~= Seq::<Seq<char>>::empty());
        reveal(Seq::filter);
    } else {
        let init = ls.drop_last();
        lemma_url_line_count(init);
        assert(ls.map_values(tr) =~= init.map_values(tr).push(trim(ls.last())));
        init.map_values(tr).lemma_filter_push(trim(ls.last()), pred);
    }
}

/// Every line whose trimmed form is not empty and does not start with
/// `'#'` appears, trimmed, among the URLs; there are exactly as many URLs as
/// such lines, and each URL is such a trimmed line.
pub proof fn lemma_url_lines_kept(contents: Seq<char>)
    ensures
        forall|k: int|
            0 <= k < lines(contents).len() && trim(#[trigger] lines(contents)[k]).len() > 0
                && trim(lines(contents)[k])[0] != '#' ==> url_entries(contents).contains(
                trim(lines(contents)[k]),
            ),
        url_entries(contents).len() == url_line_count(lines(contents)),
        forall|i: int|
            0 <= i < url_entries(contents).len() ==> {
                let e = #[trigger] url_entries(contents)[i];
                &&& e.len() > 0 && e[0] != '#'
                &&& exists|k: int|
                    0 <= k < lines(contents).len() && trim(lines(contents)[k]) == e
            },
{
    let ls = lines(contents);
    let pred = |t: Seq<char>| is_url_entry(t);
    let m = ls.map_values(|l: Seq<char>| trim(l));
    lemma_url_line_count(ls);
    assert forall|k: int|
        0 <= k < ls.len() && trim(#[trigger] ls[k]).len() > 0 && trim(ls[k])[0] != '#' implies url_entries(
        contents,
    ).contains(trim(ls[k])) by {
        assert(m[k] == trim(ls[k]));
        m.lemma_filter_contains(pred, k);
    }
    assert forall|i: int| 0 <= i < url_entries(contents).len() implies {
        let e = #[trigger] url_entries(contents)[i];
        &&& e.len() > 0 && e[0] != '#'
        &&& exists|k: int| 0 <= k < lines(contents).len() && trim(lines(contents)[k]) == e
    } by {
        m.lemma_filter_pred(pred, i);
        lemma_filter_from_map(m, pred, i);
        let j = choose|j: int| 0 <= j < m.len() && m[j] == m.filter(pred)[i];
        assert(trim(ls[j]) == m[j]);
    }
}

/// A URL list is read line by line, in order: the URLs of a first line
/// followed by the rest of the list are that line, trimmed, when it is
/// neither blank nor a `#` comment, followed by the URLs of the rest.
pub proof fn lemma_url_entries_first_line(first: Seq<char>, rest: Seq<char>)
    requires
        !first.contains('\n'),
    ensures
        url_entries(first + seq!['\n'] + rest) == (if trim(first).len() > 0 && trim(first)[0]
            != '#' {
            seq![trim(first)]
        } else {
            Seq::<Seq<char>>::empty()
        }) + url_entries(rest),
{
    let tr = |l: Seq<char>| trim(l);
    let pred = |t: Seq<char>| is_url_entry(t);
    crate::text::lemma_lines_first(first, rest);
    crate::text::lemma_trim_strip_cr(first);
    let ls = lines(first + seq!['\n'] + rest);
    assert(ls.map_values(tr) =~= seq![trim(first)] + lines(rest).map_values(tr));
    lines(rest).map_values(tr).lemma_filter_prepend(trim(first), pred);
}

/// A list of one line (no `'\n'`) holds that line, trimmed, when it is
/// neither blank nor a `#` comment, and nothing else.
pub proof fn lemma_url_entries_one_line(line: Seq<char>)
    requires
        !line.contains('\n'),
    ensures
        url_entries(line) == (if trim(line).len() > 0 && trim(line)[0] != '#' {
            seq![trim(line)]
        } else {
            Seq::<Seq<char>>::empty()
        }),
{
    let tr = |l: Seq<char>| trim(l);
    let pred = |t: Seq<char>| is_url_entry(t);
    if line.len() == 0 {
        assert(lines(line) =~= Seq::<Seq<char>>::empty());
        assert(lines(line).map_values(tr) =~= Seq::<Seq<char>>::empty());
        reveal(Seq::filter);
    } else {
        crate::text::lemma_lines_single(line);
        assert(lines(line).map_values(tr) =~= seq![trim(line)]);
        Seq::<Seq<char>>::empty().lemma_filter_prepend(trim(line), pred);
        assert(seq![trim(line)] + Seq::<Seq<char>>::empty() =~= seq![trim(line)]);
        reveal(Seq::filter);
    }
}

proof fn lemma_filter_from_map(m: Seq<Seq<char>>, pred: spec_fn(Seq<char>) -> bool, i: int)
    requires
        0 <= i < m.filter(pred).len(),
    ensures
        exists|j: int| 0 <= j < m.len() && m[j] == m.filter(pred)[i],
{
    let e = m.filter(pred)[i];
    assert(m.filter(pred).contains(e));
    m.lemma_filter_contains_rev(pred, e);
}

// ---------------------------------------------------------------------------
// URL validation
// ---------------------------------------------------------------------------

/// What `url::Url::parse` makes of a string: `Ok` with the host of the
/// parsed URL (`Url::host_str`), or `Err` with the message of the parse
/// error.
pub uninterp spec fn parsed_url_host(s: Seq<char>) -> Result<Option<Seq<char>>, Seq<char>>;

/// `url::Url::parse` followed, on success, by `Url::host_str`, and, on
/// failure, by the `Display` of `url::ParseError`.  The contract claims
/// only that the outcome is a function of the characters of `s`, named
/// `parsed_url_host`.
#[verifier::external_body]
fn parse_url_host(s: &str) -> (r: Result<Option<String>, String>)
    ensures
        match r {
            Ok(Some(h)) => parsed_url_host(s@) == Ok::<Option<Seq<char>>, Seq<char>>(Some(h@)),
            Ok(None) => parsed_url_host(s@) == Ok::<Option<Seq<char>>, Seq<char>>(None),
            Err(e) => parsed_url_host(s@) == Err::<Option<Seq<char>>, Seq<char>>(e@),
        },
{
    match url::Url::parse(s) {
        Ok(u) => Ok(u.host_str().map(|h| h.to_string())),
        Err(e) => Err(e.to_string()),
    }
}

/// The message for a URL without an `http://` or `https://` scheme.
pub open spec fn scheme_message(t: Seq<char>) -> Seq<char> {
    "Invalid URL: must start with http:// or https://\nProvided: '"@ + t
        + "'\nTip: jf expects full URLs including the scheme"@
}

/// The verdict on a trimmed URL once the URL parser has spoken.
pub open spec fn host_check(t: Seq<char>, parsed: Result<Option<Seq<char>>, Seq<char>>) -> Result<
    Seq<char>,
    FetchErrorView,
> {
    match parsed {
        Err(e) => Err(FetchErrorView::Validation { message: "Invalid URL format: "@ + e }),
        Ok(None) => Err(FetchErrorView::Validation { message: "Invalid URL: missing host"@ }),
        Ok(Some(_)) => Ok(t),
    }
}

/// The verdict on a URL: the trimmed URL, or the validation error.
pub open spec fn validated_url(url: Seq<char>) -> Result<Seq<char>, FetchErrorView> {
    let t = trim(url);
    if !has_prefix(t, "http://"@) && !has_prefix(t, "https://"@) {
        Err(FetchErrorView::Validation { message: scheme_message(t) })
    } else if t.contains(' ') || t.contains('"') || t.contains('\'') {
        Err(FetchErrorView::Validation { message: "Invalid URL: contains invalid characters"@ })
    } else {
        host_check(t, parsed_url_host(t))
    }
}

/// The view of a validation result.
pub open spec fn url_result_view(r: Result<String, FetchError>) -> Result<Seq<char>, FetchErrorView> {
    match r {
        Ok(u) => Ok(u@),
        Err(e) => Err(e@),
    }
}

/// Finishes the validation of a trimmed URL from what the URL parser made
/// of it: a parse error or a missing host is a validation error.
pub fn check_parsed_url(trimmed: String, parsed: Result<Option<String>, String>) -> (r: Result<
    String,
    FetchError,
>)
    ensures
        url_result_view(r) == host_check(
            trimmed@,
            match parsed {
                Ok(Some(h)) => Ok(Some(h@)),
                Ok(None) => Ok(None),
                Err(e) => Err(e@),
            },
        ),
{
    match parsed {
        Err(e) => {
            let mut message = String::new();
            push_str(&mut message, "Invalid URL format: ");
            push_str(&mut message, e.as_str());
            Err(FetchError::Validation { message })
        },
        Ok(None) => {
            let mut message = String::new();
            push_str(&mut message, "Invalid URL: missing host");
            Err(FetchError::Validation { message })
        },
        Ok(Some(_)) => Ok(trimmed),
    }
}

/// Whether `c` occurs in `v`.
fn has_char(v: &Vec<char>, c: char) -> (b: bool)
    ensures
        b == v@.contains(c),
{
    let mut i: usize = 0;
    while i < v.len()
        invariant
            i <= v.len(),
            forall|j: int| 0 <= j < i ==> v@[j] != c,
        decreases v.len() - i,
    {
        if v[i] == c {
            return true;
        }
        i = i + 1;
    }
    false
}

/// Validate and normalize a URL: the trimmed URL when it has an `http://`
/// or `https://` scheme, no space or quote, parses, and has a host.
pub fn validate_url(url: &str) -> (r: Result<String, FetchError>)
    ensures
        url_result_view(r) == validated_url(url@),
{
    let t = trim_str(url);
    let v = chars_of(t.as_str());
    let http = chars_of("http://");
    let https = chars_of("https://");
    assert(v@.subrange(0, v@.len() as int) =~= v@);
    if !range_has_prefix(&v, 0, v.len(), &http) && !range_has_prefix(&v, 0, v.len(), &https) {
        let mut message = String::new();
        push_str(&mut message, "Invalid URL: must start with http:// or https://\nProvided: '");
        push_str(&mut message, t.as_str());
        push_str(&mut message, "'\nTip: jf expects full URLs including the scheme");
        return Err(FetchError::Validation { message });
    }
    if has_char(&v, ' ') || has_char(&v, '"') || has_char(&v, '\'') {
        let mut message = String::new();
        push_str(&mut message, "Invalid URL: contains invalid characters");
        return Err(FetchError::Validation { message });
    }
    let parsed = parse_url_host(t.as_str());
    check_parsed_url(t, parsed)
}

/// A validated URL validates to itself: validation is idempotent.
pub proof fn lemma_validate_idempotent(url: Seq<char>)
    requires
        validated_url(url) is Ok,
    ensures
        validated_url(validated_url(url)->Ok_0) == validated_url(url),
{
    lemma_trim_idempotent(url);
}

/// A URL is accepted, trimmed, exactly when its trimmed form starts with
/// `http://` or `https://`, holds no space, `'"'` or `'\''`, and the URL
/// parser finds a host in it; any other character is allowed.
pub proof fn lemma_validate_accepts(url: Seq<char>)
    ensures
        ({
            let t = trim(url);
            (has_prefix(t, "http://"@) || has_prefix(t, "https://"@)) && !t.contains(' ')
                && !t.contains('"') && !t.contains('\'') && parsed_url_host(t) is Ok
                && parsed_url_host(t)->Ok_0 is Some ==> validated_url(url) == Ok::<
                Seq<char>,
                FetchErrorView,
            >(t)
        }),
        validated_url(url) is Ok ==> ({
            let t = trim(url);
            &&& validated_url(url)->Ok_0 == t
            &&& has_prefix(t, "http://"@) || has_prefix(t, "https://"@)
            &&& !t.contains(' ') && !t.contains('"') && !t.contains('\'')
            &&& parsed_url_host(t) is Ok && parsed_url_host(t)->Ok_0 is Some
        }),
{
}

/// Each refusal and its message: a trimmed URL without `http://` or
/// `https://` in front is refused with the message that quotes it; one that
/// holds a space, `'"'` or `'\''` is refused as holding invalid characters;
/// then a parse error is reported with the parser's message, and a URL
/// without a host as missing one.
pub proof fn lemma_validate_refusals(url: Seq<char>)
    ensures
        !has_prefix(trim(url), "http://"@) && !has_prefix(trim(url), "https://"@) ==> validated_url(
            url,
        ) == Err::<Seq<char>, FetchErrorView>(
            FetchErrorView::Validation {
                message: "Invalid URL: must start with http:// or https://\nProvided: '"@ + trim(
                    url,
                ) + "'\nTip: jf expects full URLs including the scheme"@,
            },
        ),
        (has_prefix(trim(url), "http://"@) || has_prefix(trim(url), "https://"@)) && (trim(
            url,
        ).contains(' ') || trim(url).contains('"') || trim(url).contains('\'')) ==> validated_url(
            url,
        ) == Err::<Seq<char>, FetchErrorView>(
            FetchErrorView::Validation { message: "Invalid URL: contains invalid characters"@ },
        ),
        (has_prefix(trim(url), "http://"@) || has_prefix(trim(url), "https://"@)) && !trim(
            url,
        ).contains(' ') && !trim(url).contains('"') && !trim(url).contains('\'') ==> {
            &&& parsed_url_host(trim(url)) matches Err(e) ==> validated_url(url) == Err::<
                Seq<char>,
                FetchErrorView,
            >(FetchErrorView::Validation { message: "Invalid URL format: "@ + e })
            &&& parsed_url_host(trim(url)) == Ok::<Option<Seq<char>>, Seq<char>>(None)
                ==> validated_url(url) == Err::<Seq<char>, FetchErrorView>(
                FetchErrorView::Validation { message: "Invalid URL: missing host"@ },
            )
        },
{
}

/// A validated URL is trimmed, starts with `http://` or `https://`, and
/// holds no space or quote.
pub proof fn lemma_validated_url_shape(url: Seq<char>)
    requires
        validated_url(url) is Ok,
    ensures
        ({
            let u = validated_url(url)->Ok_0;
            &&& u == trim(url)
            &&& has_prefix(u, "http://"@) || has_prefix(u, "https://"@)
            &&& !u.contains(' ') && !u.contains('"') && !u.contains('\'')
        }),
{
}

// ---------------------------------------------------------------------------
// Filenames
// ---------------------------------------------------------------------------

/// The separator between the scheme and the rest of a URL.
pub open spec fn scheme_separator() -> Seq<char> {
    seq![':', '/', '/']
}

/// The extension of the files written for fetched pages.
pub open spec fn md_extension() -> Seq<char> {
    seq!['.', 'm', 'd']
}

/// `s` without its trailing `'/'` characters (`trim_end_matches('/')`).
pub open spec fn trim_end_slashes(s: Seq<char>) -> Seq<char>
    decreases s.len(),
{
    if s.len() > 0 && s.last() == '/' {
        trim_end_slashes(s.drop_last())
    } else {
        s
    }
}

/// The part of `s` after its last `'/'`, or all of `s` when it has none
/// (`s.split('/').next_back()`).
pub open spec fn last_segment(s: Seq<char>) -> Seq<char>
    decreases s.len(),
{
    if s.len() == 0 {
        s
    } else if s.last() == '/' {
        Seq::empty()
    } else {
        last_segment(s.drop_last()).push(s.last())
    }
}

/// The part of a URL a filename is made from: with trailing slashes
/// removed, the last path segment of what lies between the first `"://"`
/// and the next one; the whole URL when it has no `"://"`.
pub open spec fn url_segment(url: Seq<char>) -> Seq<char> {
    let u = trim_end_slashes(url);
    match find_from(u, scheme_separator(), 0) {
        None => u,
        Some(i) => {
            let end = match find_from(u, scheme_separator(), i + 3) {
                Some(j) => j,
                None => u.len() as int,
            };
            last_segment(u.subrange(i + 3, end))
        },
    }
}

/// A character as it appears in a filename: alphanumerics, `'-'` and `'_'`
/// are kept, anything else becomes `'_'`.
pub open spec fn filename_char(c: char) -> char {
    if alphanumeric(c) || c == '-' || c == '_' {
        c
    } else {
        '_'
    }
}

/// The filename of a URL before it is cut to length.
pub open spec fn filename_stem(url: Seq<char>) -> Seq<char> {
    url_segment(url).map_values(|c: char| filename_char(c))
}

/// Byte 100 of the encoding of `f` falls between two characters.
pub open spec fn boundary_at_100(f: Seq<char>) -> bool {
    exists|k: int| 0 <= k <= f.len() && byte_len(f.subrange(0, k)) == 100
}

/// The filename stem of a URL can be cut to 100 bytes without splitting a
/// character; cutting inside a character is the one input on which the
/// conversion fails.
pub open spec fn filename_cut_ok(url: Seq<char>) -> bool {
    byte_len(filename_stem(url)) > 100 ==> boundary_at_100(filename_stem(url))
}

/// `f` cut to its first 100 bytes when it is longer.
pub open spec fn cut_to_100_bytes(f: Seq<char>) -> Seq<char> {
    if byte_len(f) > 100 {
        f.subrange(0, choose|k: int| 0 <= k <= f.len() && byte_len(f.subrange(0, k)) == 100)
    } else {
        f
    }
}

/// The filename of a URL: the stem cut to 100 bytes, with `".md"` added
/// unless it already ends so.
pub open spec fn url_filename(url: Seq<char>) -> Seq<char> {
    let t = cut_to_100_bytes(filename_stem(url));
    if has_suffix(t, md_extension()) {
        t
    } else {
        t + md_extension()
    }
}

proof fn lemma_trim_end_slashes(s: Seq<char>, k: int)
    requires
        0 <= k <= s.len(),
        forall|j: int| k <= j < s.len() ==> #[trigger] s[j] == '/',
        k > 0 ==> s[k - 1] != '/',
    ensures
        trim_end_slashes(s) == s.subrange(0, k),
    decreases s.len() - k,
{
    if k == s.len() {
        assert(s.subrange(0, k) =~= s);
    } else {
        let t = s.drop_last();
        assert forall|j: int| k <= j < t.len() implies #[trigger] t[j] == '/' by {
            assert(t[j] == s[j]);
        }
        if k > 0 {
            assert(t[k - 1] == s[k - 1]);
        }
        lemma_trim_end_slashes(t, k);
        assert(t.subrange(0, k) =~= s.subrange(0, k));
    }
}

proof fn lemma_last_segment(s: Seq<char>, j: int)
    requires
        0 <= j <= s.len(),
        forall|i: int| j <= i < s.len() ==> #[trigger] s[i] != '/',
        j > 0 ==> s[j - 1] == '/',
    ensures
        last_segment(s) == s.subrange(j, s.len() as int),
    decreases s.len() - j,
{
    if j == s.len() {
        if j > 0 {
            assert(s.last() == '/');
        }
        assert(s.subrange(j, s.len() as int) =~= Seq::<char>::empty());
    } else {
        let t = s.drop_last();
        assert forall|i: int| j <= i < t.len() implies #[trigger] t[i] != '/' by {
            assert(t[i] == s[i]);
        }
        if j > 0 {
            assert(t[j - 1] == s[j - 1]);
        }
        lemma_last_segment(t, j);
        assert(s.subrange(j, s.len() as int) =~= t.subrange(j, t.len() as int).push(s.last()));
    }
}

/// The characters of the filename stem of a URL.
fn filename_stem_chars(url: &str) -> (f: Vec<char>)
    ensures
        f@ == filename_stem(url@),
{
    let v = chars_of(url);
    let mut n = v.len();
    while n > 0 && v[n - 1] == '/'
        invariant
            n <= v.len(),
            forall|j: int| n <= j < v.len() ==> #[trigger] v@[j] == '/',
        decreases n,
    {
        n = n - 1;
    }
    proof {
        lemma_trim_end_slashes(v@, n as int);
    }
    let ghost u = v@.subrange(0, n as int);
    let sep = vec![':', '/', '/'];
    assert(sep@ =~= scheme_separator());
    let (lo, hi) = match range_find_from(&v, 0, n, &sep, 0) {
        None => (0, n),
        Some(i) => {
            proof {
                crate::text::lemma_find_contains(u, sep@);
            }
            let end = match range_find_from(&v, 0, n, &sep, i + 3) {
                Some(j) => j,
                None => n,
            };
            proof {
                if let Some(j) = find_from(u, sep@, i + 3) {
                    crate::text::lemma_find_from_bounds(u, sep@, i + 3);
                }
            }
            let mut j = end;
            while j > i + 3 && v[j - 1] != '/'
                invariant
                    i + 3 <= j <= end <= n <= v.len(),
                    forall|x: int| j <= x < end ==> #[trigger] v@[x] != '/',
                decreases j,
            {
                j = j - 1;
            }
            proof {
                let piece = u.subrange(i + 3, end as int);
                assert forall|x: int| j - (i + 3) <= x < piece.len() implies #[trigger] piece[x]
                    != '/' by {
                    assert(piece[x] == v@[x + i + 3]);
                }
                if j > i + 3 {
                    assert(piece[j - (i + 3) - 1] == v@[j - 1]);
                }
                lemma_last_segment(piece, j - (i + 3));
                assert(piece.subrange(j - (i + 3), piece.len() as int) =~= v@.subrange(
                    j as int,
                    end as int,
                ));
            }
            (j, end)
        },
    };
    assert(u.subrange(0, n as int) =~= u);
    let mut f: Vec<char> = Vec::new();
    let mut k = lo;
    while k < hi
        invariant
            lo <= k <= hi <= v.len(),
            f@ == v@.subrange(lo as int, k as int).map_values(|c: char| filename_char(c)),
        decreases hi - k,
    {
        let c = v[k];
        let keep = is_alphanumeric(c) || c == '-' || c == '_';
        if keep {
            f.push(c);
        } else {
            f.push('_');
        }
        assert(v@.subrange(lo as int, k + 1).map_values(|c: char| filename_char(c))
            =~= v@.subrange(lo as int, k as int).map_values(|c: char| filename_char(c)).push(
            filename_char(c),
        ));
        k = k + 1;
    }
    f
}

/// The number of leading characters of `f` that fill its first 100 bytes,
/// when `f` has more than 100 bytes: `Some` exactly when byte 100 falls
/// between two characters.
fn cut_index(f: &Vec<char>) -> (r: Option<usize>)
    requires
        byte_len(f@) > 100,
    ensures
        r is Some <==> boundary_at_100(f@),
        r matches Some(k) ==> k <= f.len() && f@.subrange(0, k as int) == cut_to_100_bytes(f@),
{
    let mut i: usize = 0;
    let mut acc: usize = 0;
    assert(f@.subrange(0, 0) =~= Seq::<char>::empty());
    while i < f.len() && acc + char_width_of(f[i]) <= 100
        invariant
            i <= f.len(),
            acc <= 100,
            acc == byte_len(f@.subrange(0, i as int)),
        decreases f.len() - i,
    {
        proof {
            assert(f@.subrange(0, i + 1) =~= f@.subrange(0, i as int).push(f@[i as int]));
            lemma_byte_len_push(f@.subrange(0, i as int), f@[i as int]);
        }
        acc = acc + char_width_of(f[i]);
        i = i + 1;
    }
    proof {
        assert(f@.subrange(0, f@.len() as int) =~= f@);
        if i == f.len() {
            assert(acc == byte_len(f@));
        }
    }
    if acc == 100 {
        proof {
            let k = choose|k: int| 0 <= k <= f@.len() && byte_len(f@.subrange(0, k)) == 100;
            if k < i {
                lemma_prefix_bytes_increase(f@, k, i as int);
            } else if k > i {
                lemma_prefix_bytes_increase(f@, i as int, k);
            }
        }
        Some(i)
    } else {
        proof {
            assert(i < f.len());
            assert(f@.subrange(0, i + 1) =~= f@.subrange(0, i as int).push(f@[i as int]));
            lemma_byte_len_push(f@.subrange(0, i as int), f@[i as int]);
            assert forall|k: int| 0 <= k <= f@.len() implies byte_len(f@.subrange(0, k)) != 100 by {
                if k < i {
                    lemma_prefix_bytes_increase(f@, k, i as int);
                } else if k > i + 1 {
                    lemma_prefix_bytes_increase(f@, i + 1, k);
                }
            }
        }
        None
    }
}

/// Whether the filename of `url` can be cut to 100 bytes without splitting
/// a character, the condition under which [`url_to_filename`] succeeds.
pub fn filename_cut_is_clean(url: &str) -> (b: bool)
    ensures
        b == filename_cut_ok(url@),
{
    let f = filename_stem_chars(url);
    let mut total: usize = 0;
    let mut i: usize = 0;
    assert(f@.subrange(0, 0) =~= Seq::<char>::empty());
    while i < f.len() && total <= 100
        invariant
            i <= f.len(),
            total <= 104,
            total == byte_len(f@.subrange(0, i as int)),
        decreases f.len() - i,
    {
        proof {
            assert(f@.subrange(0, i + 1) =~= f@.subrange(0, i as int).push(f@[i as int]));
            lemma_byte_len_push(f@.subrange(0, i as int), f@[i as int]);
        }
        total = total + char_width_of(f[i]);
        i = i + 1;
    }
    proof {
        if total > 100 {
            lemma_prefix_bytes_mono(f@, i as int, f@.len() as int);
        }
        assert(f@.subrange(0, f@.len() as int) =~= f@);
    }
    if total > 100 {
        cut_index(&f).is_some()
    } else {
        true
    }
}

/// Convert a URL to a safe filename: the last path segment of the URL,
/// its characters other than alphanumerics, `'-'` and `'_'` replaced by
/// `'_'`, cut to 100 bytes, with `".md"` appended.
pub fn url_to_filename(url: &str) -> (r: String)
    requires
        filename_cut_ok(url@),
    ensures
        r@ == url_filename(url@),
{
    let f = filename_stem_chars(url);
    let mut total: usize = 0;
    let mut i: usize = 0;
    assert(f@.subrange(0, 0) =~= Seq::<char>::empty());
    while i < f.len() && total <= 100
        invariant
            i <= f.len(),
            total <= 104,
            total == byte_len(f@.subrange(0, i as int)),
        decreases f.len() - i,
    {
        proof {
            assert(f@.subrange(0, i + 1) =~= f@.subrange(0, i as int).push(f@[i as int]));
            lemma_byte_len_push(f@.subrange(0, i as int), f@[i as int]);
        }
        total = total + char_width_of(f[i]);
        i = i + 1;
    }
    proof {
        if total > 100 {
            lemma_prefix_bytes_mono(f@, i as int, f@.len() as int);
        }
        assert(f@.subrange(0, f@.len() as int) =~= f@);
    }
    let stop = if total > 100 {
        match cut_index(&f) {
            Some(k) => k,
            None => f.len(),
        }
    } else {
        f.len()
    };
    let mut name = string_of_range(&f, 0, stop);
    let name_chars = chars_of(name.as_str());
    let md = vec!['.', 'm', 'd'];
    assert(md@ =~= md_extension());
    assert(name_chars@.subrange(0, name_chars@.len() as int) =~= name_chars@);
    if !range_has_suffix(&name_chars, 0, name_chars.len(), &md) {
        push_char(&mut name, '.');
        push_char(&mut name, 'm');
        push_char(&mut name, 'd');
        assert(name@ =~= cut_to_100_bytes(f@) + md_extension());
    }
    name
}

/// The filename of `url`, or `None` for a URL whose filename would have to
/// be cut inside a character.
pub fn try_url_to_filename(url: &str) -> (r: Option<String>)
    ensures
        match r {
            Some(name) => filename_cut_ok(url@) && name@ == url_filename(url@),
            None => !filename_cut_ok(url@),
        },
{
    if filename_cut_is_clean(url) {
        Some(url_to_filename(url))
    } else {
        None
    }
}

/// The filename stem keeps every alphanumeric character, `'-'` and `'_'`
/// of the URL segment in place, and puts `'_'` for every other character.
pub proof fn lemma_stem_keeps_safe_chars(url: Seq<char>)
    ensures
        filename_stem(url).len() == url_segment(url).len(),
        forall|i: int|
            0 <= i < url_segment(url).len() ==> {
                let c = #[trigger] url_segment(url)[i];
                &&& alphanumeric(c) || c == '-' || c == '_' ==> filename_stem(url)[i] == c
                &&& !(alphanumeric(c) || c == '-' || c == '_') ==> filename_stem(url)[i] == '_'
            },
{
}

/// A URL segment made only of alphanumerics, `'-'` and `'_'` (no `'.'`),
/// of at most 100 bytes, becomes the filename: the segment followed by
/// `".md"`.
pub proof fn lemma_safe_segment_is_filename(url: Seq<char>)
    requires
        forall|i: int|
            0 <= i < url_segment(url).len() ==> {
                let c = #[trigger] url_segment(url)[i];
                (alphanumeric(c) || c == '-' || c == '_') && c != '.'
            },
        byte_len(url_segment(url)) <= 100,
    ensures
        filename_cut_ok(url),
        url_filename(url) == url_segment(url) + md_extension(),
{
    let seg = url_segment(url);
    let f = filename_stem(url);
    assert(f =~= seg);
    let t = cut_to_100_bytes(f);
    assert(t == seg);
    if has_suffix(t, md_extension()) {
        assert(t.subrange(t.len() - 3, t.len() as int)[0] == '.');
        assert(t[t.len() - 3] == '.');
    }
}

/// The segment of a URL `scheme://path/last` is `last`, when none of the
/// three parts holds a `':'` and `last` is a non-empty name without `'/'`.
pub proof fn lemma_segment_of_simple_url(scheme: Seq<char>, path: Seq<char>, last: Seq<char>)
    requires
        !scheme.contains(':'),
        !path.contains(':'),
        !last.contains(':'),
        !last.contains('/'),
        last.len() > 0,
    ensures
        url_segment(scheme + scheme_separator() + path + seq!['/'] + last) == last,
{
    let sep = scheme_separator();
    let u = scheme + sep + path + seq!['/'] + last;
    let n = scheme.len() as int;
    assert(u[u.len() - 1] == last.last());
    assert(last.last() != '/') by {
        assert(last[last.len() - 1] == last.last());
    }
    lemma_trim_end_slashes(u, u.len() as int);
    assert(u.subrange(0, u.len() as int) =~= u);
    assert forall|j: int| 0 <= j < u.len() && u[j] == ':' implies j == n by {
        if j < n {
            assert(u[j] == scheme[j]);
            assert(scheme.contains(u[j]));
        } else if n + 3 <= j < n + 3 + path.len() {
            assert(u[j] == path[j - n - 3]);
            assert(path.contains(u[j]));
        } else if j == n + 3 + path.len() {
            assert(u[j] == '/');
        } else if j > n + 3 + path.len() {
            assert(u[j] == last[j - n - 4 - path.len()]);
            assert(last.contains(u[j]));
        }
    }
    assert(occurs_at(u, sep, n)) by {
        assert(u.subrange(n, n + 3) =~= sep);
    }
    assert forall|j: int| 0 <= j < n implies !occurs_at(u, sep, j) by {
        if occurs_at(u, sep, j) {
            assert(u.subrange(j, j + 3)[0] == u[j]);
        }
    }
    crate::text::lemma_find_from_first(u, sep, 0, n);
    assert forall|j: int| n + 3 <= j implies !occurs_at(u, sep, j) by {
        if occurs_at(u, sep, j) {
            assert(u.subrange(j, j + 3)[0] == u[j]);
        }
    }
    crate::text::lemma_find_from_none(u, sep, n + 3);
    let piece = u.subrange(n + 3, u.len() as int);
    assert(piece =~= path + seq!['/'] + last);
    let k: int = path.len() + 1int;
    assert forall|i: int| k <= i < piece.len() implies #[trigger] piece[i] != '/' by {
        assert(piece[i] == last[i - k]);
        if piece[i] == '/' {
            assert(last.contains(last[i - k]));
        }
    }
    assert(piece[k - 1] == '/');
    lemma_last_segment(piece, k);
    assert(piece.subrange(k, piece.len() as int) =~= last);
}

/// Trailing slashes do not change the filename of a URL.
pub proof fn lemma_trailing_slash_ignored(url: Seq<char>)
    ensures
        url_segment(url.push('/')) == url_segment(url),
        filename_cut_ok(url.push('/')) == filename_cut_ok(url),
        url_filename(url.push('/')) == url_filename(url),
{
    assert(url.push('/').drop_last() =~= url);
    assert(trim_end_slashes(url.push('/')) == trim_end_slashes(url));
}

/// Every filename ends with `".md"` and takes at most 103 bytes.
pub proof fn lemma_url_filename_shape(url: Seq<char>)
    requires
        filename_cut_ok(url),
    ensures
        has_suffix(url_filename(url), md_extension()),
        byte_len(url_filename(url)) <= 103,
{
    let f = filename_stem(url);
    let t = cut_to_100_bytes(f);
    if byte_len(f) > 100 {
        let k = choose|k: int| 0 <= k <= f.len() && byte_len(f.subrange(0, k)) == 100;
        assert(byte_len(t) == 100);
    }
    if !has_suffix(t, md_extension()) {
        let r = t + md_extension();
        lemma_byte_len_concat(t, md_extension());
        assert(md_extension() =~= seq!['.'].push('m').push('d'));
        lemma_byte_len_push(seq!['.'].push('m'), 'd');
        lemma_byte_len_push(seq!['.'], 'm');
        lemma_char_width('.');
        assert(r.subrange(r.len() - 3, r.len() as int) =~= md_extension());
    }
}

// ---------------------------------------------------------------------------
// Trailing newline of output
// ---------------------------------------------------------------------------

/// Whether content written to stdout is followed by an extra `'\n'`: when
/// it is not empty and does not already end with one.
pub fn needs_trailing_newline(content: &str) -> (b: bool)
    ensures
        b == (content@.len() > 0 && content@.last() != '\n'),
{
    let v = chars_of(content);
    v.len() > 0 && v[v.len() - 1] != '\n'
}

} // verus!

use vstd::prelude::*;

use crate::errors::ScraperErrors;
use crate::html::chapter_anchors_of;
use crate::html::extract_chapter_anchors;
use crate::html::extract_first_heading;
use crate::html::heading_text_of;
use crate::html::MAX_DOCUMENT_LEN;
use crate::models::Chapter;
use crate::models::ChapterModel;
use crate::text::fold;
use crate::text::fold_char;
use crate::text::is_space;
use crate::text::is_space_char;
use crate::text::pad_left;
use crate::text::push_range;
use crate::text::push_zeros;
use crate::text::zeros;

verus! {

/// `s` without its leading whitespace.
pub open spec fn trim_front(s: Seq<char>) -> Seq<char>
    decreases s.len(),
{
    if s.len() > 0 && is_space_char(s[0]) {
        trim_front(s.drop_first())
    } else {
        s
    }
}

/// `s` without its trailing whitespace.
pub open spec fn trim_back(s: Seq<char>) -> Seq<char>
    decreases s.len(),
{
    if s.len() > 0 && is_space_char(s.last()) {
        trim_back(s.drop_last())
    } else {
        s
    }
}

/// `s` without leading and trailing whitespace.
pub open spec fn trim_spec(s: Seq<char>) -> Seq<char> {
    trim_back(trim_front(s))
}

/// The index of the last whitespace character of `s`, if any.
pub open spec fn rfind_space(s: Seq<char>) -> Option<int>
    decreases s.len(),
{
    if s.len() == 0 {
        None
    } else if is_space_char(s.last()) {
        Some(s.len() - 1)
    } else {
        rfind_space(s.drop_last())
    }
}

/// The index of the last `'.'` of `s`, if any.
pub open spec fn rfind_dot(s: Seq<char>) -> Option<int>
    decreases s.len(),
{
    if s.len() == 0 {
        None
    } else if s.last() == '.' {
        Some(s.len() - 1)
    } else {
        rfind_dot(s.drop_last())
    }
}

/// Where the trailing numeric token of a normalized title starts: right after
/// the last whitespace, after the first character when there is no whitespace,
/// and at the start when the title is empty.
pub open spec fn cut_of(t: Seq<char>) -> int {
    if t.len() == 0 {
        0
    } else {
        match rfind_space(t) {
            Some(i) => i + 1,
            None => 1,
        }
    }
}

/// The width the numeric token is padded to: four digits, plus the length of
/// the fractional part (dot included) when the token has one.
pub open spec fn width_of(num: Seq<char>) -> int {
    match rfind_dot(num) {
        Some(i) => num.len() - i + 4,
        None => 4,
    }
}

/// The normalized title slug of a raw `title` attribute: trimmed, lower-cased
/// with path separators substituted, and with its trailing numeric token
/// zero-padded so that lexical order of slugs follows chapter numbers.
pub open spec fn normalize_title_spec(raw: Seq<char>) -> Seq<char> {
    let t = trim_spec(raw).map_values(|c: char| fold_char(c));
    let cut = cut_of(t);
    t.take(cut) + pad_left(t.skip(cut), width_of(t.skip(cut)))
}

proof fn lemma_trim_front_skip(s: Seq<char>, k: int)
    requires
        0 <= k <= s.len(),
        forall|j: int| 0 <= j < k ==> is_space_char(s[j]),
        k == s.len() || !is_space_char(s[k]),
    ensures
        trim_front(s) == s.skip(k),
    decreases k,
{
    if k == 0 {
        assert(s.skip(0) =~= s);
    } else {
        lemma_trim_front_skip(s.drop_first(), k - 1);
        assert(s.drop_first().skip(k - 1) =~= s.skip(k));
    }
}

proof fn lemma_trim_back_take(s: Seq<char>, e: int)
    requires
        0 <= e <= s.len(),
        forall|j: int| e <= j < s.len() ==> is_space_char(s[j]),
        e == 0 || !is_space_char(s[e - 1]),
    ensures
        trim_back(s) == s.take(e),
    decreases s.len() - e,
{
    if e == s.len() {
        assert(s.take(e) =~= s);
    } else {
        lemma_trim_back_take(s.drop_last(), e);
        assert(s.drop_last().take(e) =~= s.take(e));
    }
}

/// Normalizes one raw `title` attribute into an order-preserving slug, as
/// [`normalize_title_spec`] describes.
pub fn normalize_title(raw: &str) -> (r: String)
    ensures
        r@ == normalize_title_spec(raw@),
{
    let n = raw.unicode_len();
    let mut start: usize = 0;
    while start < n && is_space(raw.get_char(start))
        invariant
            start <= n,
            n == raw@.len(),
            forall|j: int| 0 <= j < start ==> is_space_char(raw@[j]),
        decreases n - start,
    {
        start = start + 1;
    }
    let mut end: usize = n;
    while end > start && is_space(raw.get_char(end - 1))
        invariant
            start <= end <= n,
            n == raw@.len(),
            forall|j: int| end <= j < n ==> is_space_char(raw@[j]),
        decreases end,
    {
        end = end - 1;
    }
    proof {
        lemma_trim_front_skip(raw@, start as int);
        lemma_trim_back_take(raw@.skip(start as int), end - start as int);
        assert(raw@.skip(start as int).take(end - start as int) =~= raw@.subrange(
            start as int,
            end as int,
        ));
    }
    let mut t: Vec<char> = Vec::new();
    let mut last_space: Option<usize> = None;
    let mut i: usize = start;
    while i < end
        invariant
            start <= i <= end <= n,
            n == raw@.len(),
            t@.len() == i - start,
            forall|j: int| 0 <= j < i - start ==> t@[j] == fold_char(raw@[start + j]),
            rfind_space(t@) == match last_space {
                Some(k) => Some(k as int),
                None => None::<int>,
            },
            match last_space {
                Some(k) => k < t@.len(),
                None => true,
            },
        decreases end - i,
    {
        let c = fold(raw.get_char(i));
        proof {
            assert(t@.push(c).drop_last() =~= t@);
        }
        t.push(c);
        if is_space(c) {
            last_space = Some(t.len() - 1);
        }
        i = i + 1;
    }
    proof {
        assert(t@ =~= trim_spec(raw@).map_values(|c: char| fold_char(c)));
    }
    let tlen = t.len();
    let cut: usize = if tlen == 0 {
        0
    } else {
        match last_space {
            Some(k) => k + 1,
            None => 1,
        }
    };
    proof {
        assert(cut as int == cut_of(t@));
    }
    let mut last_dot: Option<usize> = None;
    let mut j: usize = cut;
    while j < tlen
        invariant
            cut <= j <= tlen,
            tlen == t@.len(),
            rfind_dot(t@.subrange(cut as int, j as int)) == match last_dot {
                Some(k) => Some(k as int),
                None => None::<int>,
            },
            match last_dot {
                Some(k) => k < j - cut,
                None => true,
            },
        decreases tlen - j,
    {
        proof {
            assert(t@.subrange(cut as int, j + 1 as int).drop_last() =~= t@.subrange(
                cut as int,
                j as int,
            ));
            assert(t@.subrange(cut as int, j + 1 as int).last() == t@[j as int]);
        }
        if t[j] == '.' {
            last_dot = Some(j - cut);
        }
        j = j + 1;
    }
    let num_len = tlen - cut;
    let pad: usize = match last_dot {
        Some(rel) => if rel < 4 {
            4 - rel
        } else {
            0
        },
        None => if num_len < 4 {
            4 - num_len
        } else {
            0
        },
    };
    proof {
        let numv = t@.subrange(cut as int, tlen as int);
        assert(numv =~= t@.skip(cut as int));
        assert(pad_left(numv, width_of(numv)) =~= zeros(pad as int) + numv);
    }
    let mut r = String::new();
    push_range(&mut r, &t, 0, cut);
    push_zeros(&mut r, pad);
    push_range(&mut r, &t, cut, tlen);
    proof {
        assert(t@.subrange(0, cut as int) =~= t@.take(cut as int));
        assert(r@ =~= normalize_title_spec(raw@));
    }
    r
}

/// The sequence held by an optional attribute; a missing attribute reads as
/// the empty string.
pub open spec fn opt_or_empty(o: Option<Seq<char>>) -> Seq<char> {
    match o {
        Some(s) => s,
        None => Seq::empty(),
    }
}

/// The chapter built from one `(href, title)` anchor.
pub open spec fn chapter_of_anchor(a: (Option<Seq<char>>, Option<Seq<char>>)) -> ChapterModel {
    ChapterModel { url: opt_or_empty(a.0), title: normalize_title_spec(opt_or_empty(a.1)) }
}

/// The chapter list built from the anchors of a title page: one chapter per
/// anchor, reversing the order they were matched in, since the site lists
/// the newest chapter first and the orchestrator wants the oldest first.
pub open spec fn chapter_list_spec(anchors: Seq<(Option<Seq<char>>, Option<Seq<char>>)>) -> Seq<
    ChapterModel,
> {
    anchors.map_values(|a: (Option<Seq<char>>, Option<Seq<char>>)| chapter_of_anchor(a)).reverse()
}

/// Builds the chapter list from extracted anchors, reversing their order and
/// normalizing each title, as [`chapter_list_spec`] describes.
pub fn chapters_from_anchors(anchors: &Vec<(Option<String>, Option<String>)>) -> (r: Vec<Chapter>)
    ensures
        r.deep_view() == chapter_list_spec(anchors.deep_view()),
{
    let ghost mapped: Seq<ChapterModel> = anchors.deep_view().map_values(
        |a: (Option<Seq<char>>, Option<Seq<char>>)| chapter_of_anchor(a),
    );
    let len = anchors.len();
    let mut r: Vec<Chapter> = Vec::new();
    let mut i: usize = 0;
    while i < len
        invariant
            i <= len,
            len == anchors@.len(),
            mapped == anchors.deep_view().map_values(
                |a: (Option<Seq<char>>, Option<Seq<char>>)| chapter_of_anchor(a),
            ),
            r.deep_view() =~= mapped.reverse().take(i as int),
        decreases len - i,
    {
        let a = &anchors[len - 1 - i];
        let url: String = match &a.0 {
            Some(u) => u.clone(),
            None => String::new(),
        };
        let title: String = match &a.1 {
            Some(t) => normalize_title(t.as_str()),
            None => normalize_title(""),
        };
        proof {
            reveal_strlit("");
            assert(""@ =~= Seq::<char>::empty());
            assert(anchors.deep_view()[len - 1 - i as int] == (
                match a.0 {
                    Some(ref u) => Some(u@),
                    None => None::<Seq<char>>,
                },
                match a.1 {
                    Some(ref t) => Some(t@),
                    None => None::<Seq<char>>,
                },
            ));
        }
        let ch = Chapter { url, title };
        proof {
            assert(ch.deep_view() == mapped.reverse()[i as int]);
        }
        let ghost prev = r@;
        let ghost prev_dv = r.deep_view();
        r.push(ch);
        proof {
            assert(r@ == prev.push(ch));
            assert(prev_dv.len() == prev.len());
            assert(prev.len() == i as int);
            let dv = r.deep_view();
            assert forall|k: int| 0 <= k <= i as int implies dv[k] == mapped.reverse().take(
                i + 1 as int,
            )[k] by {
                if k < i as int {
                    assert(r@[k] == prev[k]);
                    assert(prev_dv[k] == prev[k].deep_view());
                    assert(prev_dv[k] == mapped.reverse().take(i as int)[k]);
                } else {
                    assert(r@[k] == ch);
                }
            }
            assert(dv =~= mapped.reverse().take(i + 1 as int));
        }
        i = i + 1;
    }
    proof {
        assert(r.deep_view() =~= chapter_list_spec(anchors.deep_view()));
    }
    r
}

/// The crawler: extracts the anchor list of a title landing page and turns it
/// into the ordered chapter list, oldest chapter first. The document must
/// stay under [`MAX_DOCUMENT_LEN`], the parser's buffer cap.
pub fn fetch_chapter_list(html: &str) -> (r: Vec<Chapter>)
    requires
        html@.len() < MAX_DOCUMENT_LEN,
    ensures
        r.deep_view() == chapter_list_spec(chapter_anchors_of(html@)),
{
    let anchors = extract_chapter_anchors(html);
    chapters_from_anchors(&anchors)
}

/// The display name of the manga: the text of the page's first `h1` heading,
/// or the given fallback (the raw title slug) when the page has none. The
/// document must stay under [`MAX_DOCUMENT_LEN`], the parser's buffer cap.
pub fn manga_display_name(html: &str, fallback: &str) -> (r: String)
    requires
        html@.len() < MAX_DOCUMENT_LEN,
    ensures
        r@ == match heading_text_of(html@) {
            Some(t) => t,
            None => fallback@,
        },
{
    match extract_first_heading(html) {
        Some(name) => name,
        None => fallback.to_owned(),
    }
}

/// Strict lexicographic order on character sequences, by code point.
pub open spec fn lex_lt(x: Seq<char>, y: Seq<char>) -> bool
    decreases x.len(),
{
    if y.len() == 0 {
        false
    } else if x.len() == 0 {
        true
    } else if x.first() != y.first() {
        (x.first() as u32) < (y.first() as u32)
    } else {
        lex_lt(x.drop_first(), y.drop_first())
    }
}

/// Whether every character of `s` is a decimal digit.
pub open spec fn all_digits(s: Seq<char>) -> bool {
    forall|i: int| 0 <= i < s.len() ==> '0' <= #[trigger] s[i] <= '9'
}

/// Ten to the power `n` (one for `n <= 0`).
pub open spec fn pow10(n: int) -> int
    decreases n,
{
    if n <= 0 {
        1
    } else {
        10 * pow10(n - 1)
    }
}

/// The value of one digit character.
pub open spec fn digit_of(c: char) -> int {
    (c as u32) - 48
}

/// The numeric value of a digit string.
pub open spec fn digits_val(s: Seq<char>) -> int
    decreases s.len(),
{
    if s.len() == 0 {
        0
    } else {
        digit_of(s.first()) * pow10(s.len() - 1) + digits_val(s.drop_first())
    }
}

proof fn lemma_pow10_pos(n: int)
    ensures
        pow10(n) >= 1,
    decreases n,
{
    if n > 0 {
        lemma_pow10_pos(n - 1);
    }
}

proof fn lemma_digits_val_bound(s: Seq<char>)
    requires
        all_digits(s),
    ensures
        0 <= digits_val(s) < pow10(s.len() as int),
    decreases s.len(),
{
    if s.len() == 0 {
    } else {
        assert(all_digits(s.drop_first())) by {
            assert(forall|i: int|
                0 <= i < s.drop_first().len() ==> s.drop_first()[i] == #[trigger] s[i + 1]);
        }
        lemma_digits_val_bound(s.drop_first());
        lemma_pow10_pos(s.len() - 1);
        let d = digit_of(s.first());
        let p = pow10(s.len() - 1);
        let r = digits_val(s.drop_first());
        assert('0' <= s[0] <= '9');
        assert(0 <= d <= 9);
        assert(0 <= d * p && d * p + r < 10 * p) by (nonlinear_arith)
            requires
                0 <= d <= 9,
                0 <= r < p,
                p >= 1;
    }
}

/// Equal-length digit strings compare lexicographically exactly as their
/// numeric values do.
proof fn lemma_digits_lex(x: Seq<char>, y: Seq<char>)
    requires
        x.len() == y.len(),
        all_digits(x),
        all_digits(y),
        digits_val(x) < digits_val(y),
    ensures
        lex_lt(x, y),
    decreases x.len(),
{
    if x.len() == 0 {
        assert(digits_val(x) == 0 && digits_val(y) == 0);
    } else {
        let xt = x.drop_first();
        let yt = y.drop_first();
        assert(all_digits(xt) && all_digits(yt)) by {
            assert(forall|i: int| 0 <= i < xt.len() ==> xt[i] == #[trigger] x[i + 1]);
            assert(forall|i: int| 0 <= i < yt.len() ==> yt[i] == #[trigger] y[i + 1]);
        }
        lemma_digits_val_bound(xt);
        lemma_digits_val_bound(yt);
        lemma_pow10_pos(x.len() - 1);
        let d1 = digit_of(x.first());
        let d2 = digit_of(y.first());
        let p = pow10(x.len() - 1);
        assert('0' <= x[0] <= '9' && '0' <= y[0] <= '9');
        if x.first() == y.first() {
            lemma_digits_lex(xt, yt);
        } else {
            if d1 >= d2 + 1 {
                assert(d1 * p >= (d2 + 1) * p) by (nonlinear_arith)
                    requires
                        d1 >= d2 + 1,
                        p >= 1;
                assert((d2 + 1) * p == d2 * p + p) by (nonlinear_arith);
                assert(false);
            }
            assert((x.first() as u32) < (y.first() as u32));
        }
    }
}

/// A common prefix does not change how two sequences compare.
proof fn lemma_lex_prefix(p: Seq<char>, x: Seq<char>, y: Seq<char>)
    requires
        lex_lt(x, y),
    ensures
        lex_lt(p + x, p + y),
    decreases p.len(),
{
    if p.len() == 0 {
        assert(p + x =~= x);
        assert(p + y =~= y);
    } else {
        lemma_lex_prefix(p.drop_first(), x, y);
        assert((p + x).drop_first() =~= p.drop_first() + x);
        assert((p + y).drop_first() =~= p.drop_first() + y);
        assert((p + x).first() == p.first());
        assert((p + y).first() == p.first());
        assert(lex_lt(p.drop_first() + x, p.drop_first() + y));
    }
}

proof fn lemma_zeros_val(k: int, a: Seq<char>)
    requires
        k >= 0,
        all_digits(a),
    ensures
        all_digits(zeros(k) + a),
        digits_val(zeros(k) + a) == digits_val(a),
    decreases k,
{
    if k == 0 {
        assert(zeros(0) + a =~= a);
    } else {
        lemma_zeros_val(k - 1, a);
        let s = zeros(k) + a;
        assert(s.first() == '0');
        assert(s.drop_first() =~= zeros(k - 1) + a);
        assert(all_digits(s)) by {
            assert(forall|i: int|
                0 <= i < s.len() ==> s[i] == (if i < k {
                    '0'
                } else {
                    a[i - k]
                }));
        }
        assert(digit_of('0') == 0);
        assert(digits_val(s) == 0 * pow10(s.len() - 1) + digits_val(zeros(k - 1) + a));
    }
}

/// Padding a digit string with zeros to a wider width keeps its value.
proof fn lemma_pad_digits(a: Seq<char>, w: int)
    requires
        all_digits(a),
        0 <= a.len() <= w,
    ensures
        all_digits(pad_left(a, w)),
        pad_left(a, w).len() == w,
        digits_val(pad_left(a, w)) == digits_val(a),
{
    if a.len() < w {
        lemma_zeros_val(w - a.len(), a);
    }
}

/// Two digit tokens padded to the common width order lexicographically
/// exactly as their numeric values do, under any shared prefix.
pub proof fn lemma_pad4_order(prefix: Seq<char>, a: Seq<char>, b: Seq<char>)
    requires
        all_digits(a),
        all_digits(b),
        a.len() <= 4,
        b.len() <= 4,
        digits_val(a) < digits_val(b),
    ensures
        lex_lt(prefix + pad_left(a, 4), prefix + pad_left(b, 4)),
{
    lemma_pad_digits(a, 4);
    lemma_pad_digits(b, 4);
    lemma_digits_lex(pad_left(a, 4), pad_left(b, 4));
    lemma_lex_prefix(prefix, pad_left(a, 4), pad_left(b, 4));
}

proof fn lemma_rfind_space_append(x: Seq<char>, y: Seq<char>)
    requires
        forall|i: int| 0 <= i < y.len() ==> !is_space_char(#[trigger] y[i]),
    ensures
        rfind_space(x + y) == rfind_space(x),
    decreases y.len(),
{
    if y.len() == 0 {
        assert(x + y =~= x);
    } else {
        assert((x + y).drop_last() =~= x + y.drop_last());
        assert((x + y).last() == y.last());
        assert(forall|i: int|
            0 <= i < y.drop_last().len() ==> y.drop_last()[i] == #[trigger] y[i]);
        lemma_rfind_space_append(x, y.drop_last());
    }
}

proof fn lemma_rfind_dot_none(a: Seq<char>)
    requires
        forall|i: int| 0 <= i < a.len() ==> #[trigger] a[i] != '.',
    ensures
        rfind_dot(a) == None::<int>,
    decreases a.len(),
{
    if a.len() > 0 {
        assert(forall|i: int|
            0 <= i < a.drop_last().len() ==> a.drop_last()[i] == #[trigger] a[i]);
        lemma_rfind_dot_none(a.drop_last());
    }
}

/// What normalization does to a title whose trailing token is a whole
/// number: the folded head keeps its space, and the token is zero-padded to
/// four digits.
proof fn lemma_normalize_shape(head: Seq<char>, a: Seq<char>)
    requires
        head.len() >= 1,
        !is_space_char(head.first()),
        all_digits(a),
        a.len() >= 1,
    ensures
        normalize_title_spec(head + seq![' '] + a) == head.map_values(|c: char| fold_char(c))
            + seq![' '] + pad_left(a, 4),
{
    let raw = head + seq![' '] + a;
    let fh = head.map_values(|c: char| fold_char(c));
    assert(raw.first() == head.first());
    assert(trim_front(raw) == raw);
    assert(raw.last() == a.last());
    assert('0' <= a.last() <= '9');
    assert(!is_space_char(raw.last()));
    assert(trim_back(raw) == raw);
    let t = trim_spec(raw).map_values(|c: char| fold_char(c));
    assert(t =~= fh + seq![' '] + a) by {
        assert(forall|i: int| 0 <= i < raw.len() ==> t[i] == fold_char(#[trigger] raw[i]));
        assert(forall|i: int| 0 <= i < head.len() ==> raw[i] == #[trigger] head[i]);
        assert(raw[head.len() as int] == ' ');
        assert(forall|i: int|
            head.len() + 1 <= i < raw.len() ==> raw[i] == #[trigger] a[i - head.len() - 1]);
        assert(forall|i: int|
            0 <= i < a.len() ==> ('0' <= #[trigger] a[i] <= '9' ==> fold_char(a[i]) == a[i]));
        assert(fold_char(' ') == ' ');
    }
    assert(t =~= (fh + seq![' ']) + a);
    assert forall|i: int| 0 <= i < a.len() implies !is_space_char(#[trigger] a[i]) by {
        assert('0' <= a[i] <= '9');
    }
    lemma_rfind_space_append(fh + seq![' '], a);
    assert((fh + seq![' ']).last() == ' ');
    assert(rfind_space(fh + seq![' ']) == Some(fh.len() as int));
    assert(rfind_space(t) == Some(fh.len() as int));
    let cut = cut_of(t);
    assert(cut == fh.len() + 1);
    assert(t.take(cut) =~= fh + seq![' ']);
    assert(t.skip(cut) =~= a);
    assert forall|i: int| 0 <= i < a.len() implies #[trigger] a[i] != '.' by {
        assert('0' <= a[i] <= '9');
    }
    lemma_rfind_dot_none(a);
    assert(width_of(t.skip(cut)) == 4);
    assert(normalize_title_spec(raw) == t.take(cut) + pad_left(a, 4));
}

/// The crawler's ordering law: two titles that share a head and end in
/// whole-number tokens of at most four digits normalize to slugs whose
/// lexicographic order agrees with the numeric order of the tokens — the
/// zero-padding makes `...0009` sort before `...0010`.
///
/// Tokens above four digits overflow the fixed pad width and are outside
/// this law, as are fractional tokens, whose pad width varies per title.
pub proof fn lemma_title_order(head: Seq<char>, a: Seq<char>, b: Seq<char>)
    requires
        head.len() >= 1,
        !is_space_char(head.first()),
        all_digits(a),
        all_digits(b),
        1 <= a.len() <= 4,
        1 <= b.len() <= 4,
        digits_val(a) < digits_val(b),
    ensures
        lex_lt(
            normalize_title_spec(head + seq![' '] + a),
            normalize_title_spec(head + seq![' '] + b),
        ),
{
    lemma_normalize_shape(head, a);
    lemma_normalize_shape(head, b);
    let fh = head.map_values(|c: char| fold_char(c));
    lemma_pad4_order(fh + seq![' '], a, b);
    assert(fh + seq![' '] + pad_left(a, 4) =~= (fh + seq![' ']) + pad_left(a, 4));
    assert(fh + seq![' '] + pad_left(b, 4) =~= (fh + seq![' ']) + pad_left(b, 4));
}

/// Whether `s` consists of decimal digits only, and is not empty.
pub open spec fn is_numeric_seq(s: Seq<char>) -> bool {
    s.len() > 0 && forall|i: int| 0 <= i < s.len() ==> '0' <= #[trigger] s[i] <= '9'
}

/// Validates the trailing path segment the site redirected a title id to.
///
/// A purely numeric segment (or a URL with no path segments at all, modeled
/// as `None`) is the site's convention for an unknown id and is rejected with
/// `InvalidBookId`; any other segment is the title slug.
pub fn resolve_title_slug(id: usize, segment: Option<&str>) -> (r: Result<String, ScraperErrors>)
    ensures
        match segment {
            None => r matches Err(ScraperErrors::InvalidBookId(e)) && e == id,
            Some(s) => if is_numeric_seq(s@) {
                r matches Err(ScraperErrors::InvalidBookId(e)) && e == id
            } else {
                r matches Ok(t) && t@ == s@
            },
        },
{
    match segment {
        None => Err(ScraperErrors::InvalidBookId(id)),
        Some(s) => {
            let n = s.unicode_len();
            let mut all_digits: bool = n > 0;
            let mut i: usize = 0;
            while i < n
                invariant
                    i <= n,
                    n == s@.len(),
                    all_digits == (n > 0 && forall|j: int|
                        0 <= j < i ==> '0' <= #[trigger] s@[j] <= '9'),
                decreases n - i,
            {
                let c = s.get_char(i);
                if c < '0' || c > '9' {
                    all_digits = false;
                }
                i = i + 1;
            }
            if all_digits {
                Err(ScraperErrors::InvalidBookId(id))
            } else {
                Ok(s.to_owned())
            }
        },
    }
}

} // verus!

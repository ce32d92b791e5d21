//! Text normalization: whitespace collapse, symbol stripping and a final tidy pass.

use vstd::prelude::*;

verus! {

/// The characters with the Unicode `White_Space` property.
pub open spec fn is_white_space(c: char) -> bool {
    ('\u{9}' <= c && c <= '\u{d}') || c == ' ' || c == '\u{85}' || c == '\u{a0}'
        || c == '\u{1680}' || ('\u{2000}' <= c && c <= '\u{200a}') || c == '\u{2028}'
        || c == '\u{2029}' || c == '\u{202f}' || c == '\u{205f}' || c == '\u{3000}'
}

/// The symbols that the tidy pass deletes outright.
pub open spec fn is_stray_symbol(c: char) -> bool {
    c == '@' || c == '#' || c == '%' || c == '&' || c == '*' || c == '(' || c == ')'
}

/// Every tab becomes a space.
pub open spec fn tabs_to_spaces(s: Seq<char>) -> Seq<char> {
    s.map_values(|c: char| if c == '\t' { ' ' } else { c })
}

/// The text without its stray symbols.
pub open spec fn without_stray_symbols(s: Seq<char>) -> Seq<char> {
    s.filter(|c: char| !is_stray_symbol(c))
}

/// One left-to-right pass that replaces each non-overlapping pair of spaces by one space.
pub open spec fn halve_space_pairs(s: Seq<char>) -> Seq<char>
    decreases s.len(),
{
    if s.len() == 0 {
        s
    } else if s.len() >= 2 && s[0] == ' ' && s[1] == ' ' {
        seq![' '] + halve_space_pairs(s.subrange(2, s.len() as int))
    } else {
        seq![s[0]] + halve_space_pairs(s.drop_first())
    }
}

/// Index of the first character that is not white space (the length if there is none).
pub open spec fn lead_ws(s: Seq<char>) -> nat
    decreases s.len(),
{
    if s.len() > 0 && is_white_space(s[0]) {
        1 + lead_ws(s.drop_first())
    } else {
        0
    }
}

/// Number of white-space characters at the end of the text.
pub open spec fn trail_ws(s: Seq<char>) -> nat
    decreases s.len(),
{
    if s.len() > 0 && is_white_space(s.last()) {
        1 + trail_ws(s.drop_last())
    } else {
        0
    }
}

/// The text without leading and trailing white space.
pub open spec fn trim_ws(s: Seq<char>) -> Seq<char> {
    if lead_ws(s) == s.len() {
        Seq::empty()
    } else {
        s.subrange(lead_ws(s) as int, s.len() - trail_ws(s))
    }
}

/// The tidy pass that follows symbol stripping.
pub open spec fn tidied(s: Seq<char>) -> Seq<char> {
    trim_ws(halve_space_pairs(without_stray_symbols(tabs_to_spaces(s))))
}

/// What `replace_all` of the `regex` crate yields for this pattern, text and replacement.
pub uninterp spec fn regex_replaced(pattern: Seq<char>, text: Seq<char>, replacement: Seq<char>) -> Seq<char>;

/// Each maximal run of white space replaced by one space.
pub open spec fn white_space_collapsed(s: Seq<char>) -> Seq<char>
    decreases s.len(),
{
    if s.len() == 0 {
        s
    } else {
        let rest = white_space_collapsed(s.drop_last());
        if !is_white_space(s.last()) {
            rest.push(s.last())
        } else if s.len() >= 2 && is_white_space(s[s.len() - 2]) {
            rest
        } else {
            rest.push(' ')
        }
    }
}

/// The pattern that matches a maximal run of white space.
pub open spec fn white_space_run() -> Seq<char> {
    seq!['\\', 's', '+']
}

/// The pattern that matches one character that is neither a space, a letter nor punctuation.
pub open spec fn not_letter_punct_space() -> Seq<char> {
    seq!['[', '^', ' ', '\\', 'p', '{', 'L', '}', '\\', 'p', '{', 'P', '}', ']']
}

/// The full normalization of a text.
pub open spec fn normalized(s: Seq<char>) -> Seq<char> {
    tidied(
        regex_replaced(not_letter_punct_space(), white_space_collapsed(s), Seq::empty()),
    )
}

/// Relies on `regex::Regex::new`, which accepts both patterns of the normalization (the
/// crate's default Unicode features cover `\s` and `\p{..}`), and on
/// `regex::Regex::replace_all`: every leftmost non-overlapping match replaced. `\s` is the
/// Unicode `White_Space` property, and `+` is greedy, so `\s+` matches each maximal run.
#[verifier::external_body]
fn replace_matches(pattern: &str, text: &str, replacement: &str) -> (r: String)
    requires
        pattern@ == white_space_run() || pattern@ == not_letter_punct_space(),
    ensures
        r@ == regex_replaced(pattern@, text@, replacement@),
        pattern@ == white_space_run() && replacement@ == seq![' '] ==> r@ == white_space_collapsed(
            text@,
        ),
{
    regex::Regex::new(pattern).unwrap().replace_all(text, replacement).into_owned()
}

/// Relies on `str::chars`: the characters of the text, in order.
#[verifier::external_body]
pub(crate) fn chars_of(s: &str) -> (r: Vec<char>)
    ensures
        r@ == s@,
{
    s.chars().collect()
}

/// Relies on `String: FromIterator<&char>`: the characters joined, in order.
#[verifier::external_body]
pub(crate) fn string_of(v: &Vec<char>) -> (r: String)
    ensures
        r@ == v@,
{
    v.iter().collect()
}

fn tabs_to_spaces_vec(v: &Vec<char>) -> (r: Vec<char>)
    ensures
        r@ == tabs_to_spaces(v@),
{
    let mut out: Vec<char> = Vec::new();
    let mut i: usize = 0;
    while i < v.len()
        invariant
            i <= v.len(),
            out@ == tabs_to_spaces(v@.subrange(0, i as int)),
        decreases v.len() - i,
    {
        let c = v[i];
        out.push(if c == '\t' { ' ' } else { c });
        assert(v@.subrange(0, i + 1) == v@.subrange(0, i as int).push(c));
        i = i + 1;
    }
    assert(v@.subrange(0, v.len() as int) == v@);
    out
}

fn without_stray_symbols_vec(v: &Vec<char>) -> (r: Vec<char>)
    ensures
        r@ == without_stray_symbols(v@),
{
    let mut out: Vec<char> = Vec::new();
    let mut i: usize = 0;
    while i < v.len()
        invariant
            i <= v.len(),
            out@ == without_stray_symbols(v@.subrange(0, i as int)),
        decreases v.len() - i,
    {
        let c = v[i];
        let stray = c == '@' || c == '#' || c == '%' || c == '&' || c == '*' || c == '('
            || c == ')';
        assert(v@.subrange(0, i + 1).drop_last() == v@.subrange(0, i as int));
        reveal(Seq::filter);
        if !stray {
            out.push(c);
        }
        i = i + 1;
    }
    assert(v@.subrange(0, v.len() as int) == v@);
    out
}

fn halve_space_pairs_vec(v: &Vec<char>) -> (r: Vec<char>)
    ensures
        r@ == halve_space_pairs(v@),
{
    let mut out: Vec<char> = Vec::new();
    let mut i: usize = 0;
    assert(v@.subrange(0, v.len() as int) == v@);
    assert(Seq::<char>::empty() + v@ == v@);
    while i < v.len()
        invariant
            i <= v.len(),
            out@ + halve_space_pairs(v@.subrange(i as int, v.len() as int)) == halve_space_pairs(
                v@,
            ),
        decreases v.len() - i,
    {
        let ghost rest = v@.subrange(i as int, v.len() as int);
        if i + 1 < v.len() && v[i] == ' ' && v[i + 1] == ' ' {
            assert(rest.subrange(2, rest.len() as int) == v@.subrange(i + 2, v.len() as int));
            out.push(' ');
            i = i + 2;
        } else {
            assert(rest.drop_first() == v@.subrange(i + 1, v.len() as int));
            out.push(v[i]);
            i = i + 1;
        }
        assert(out@ + halve_space_pairs(v@.subrange(i as int, v.len() as int)) == halve_space_pairs(v@));
    }
    assert(v@.subrange(v.len() as int, v.len() as int) == Seq::<char>::empty());
    assert(out@ + Seq::<char>::empty() == out@);
    out
}

fn is_white_space_char(c: char) -> (r: bool)
    ensures
        r == is_white_space(c),
{
    ('\u{9}' <= c && c <= '\u{d}') || c == ' ' || c == '\u{85}' || c == '\u{a0}' || c
        == '\u{1680}' || ('\u{2000}' <= c && c <= '\u{200a}') || c == '\u{2028}' || c
        == '\u{2029}' || c == '\u{202f}' || c == '\u{205f}' || c == '\u{3000}'
}

proof fn lemma_lead_ws(s: Seq<char>, i: int)
    requires
        0 <= i <= s.len(),
        forall|k: int| 0 <= k < i ==> is_white_space(#[trigger] s[k]),
    ensures
        lead_ws(s) >= i,
        i < s.len() && !is_white_space(s[i]) ==> lead_ws(s) == i,
        i == s.len() ==> lead_ws(s) == s.len(),
    decreases i,
{
    if i > 0 {
        lemma_lead_ws(s.drop_first(), i - 1);
    }
}

proof fn lemma_trail_ws(s: Seq<char>, i: int)
    requires
        0 <= i <= s.len(),
        forall|k: int| s.len() - i <= k < s.len() ==> is_white_space(#[trigger] s[k]),
    ensures
        trail_ws(s) >= i,
        i < s.len() && !is_white_space(s[s.len() - 1 - i]) ==> trail_ws(s) == i,
    decreases i,
{
    if i > 0 {
        lemma_trail_ws(s.drop_last(), i - 1);
    }
}

pub(crate) fn trim_ws_vec(v: &Vec<char>) -> (r: Vec<char>)
    ensures
        r@ == trim_ws(v@),
{
    let mut lo: usize = 0;
    while lo < v.len() && is_white_space_char(v[lo])
        invariant
            lo <= v.len(),
            forall|k: int| 0 <= k < lo ==> is_white_space(#[trigger] v@[k]),
        decreases v.len() - lo,
    {
        lo = lo + 1;
    }
    proof {
        lemma_lead_ws(v@, lo as int);
    }
    let mut out: Vec<char> = Vec::new();
    if lo == v.len() {
        return out;
    }
    let mut hi: usize = v.len();
    while hi > lo && is_white_space_char(v[hi - 1])
        invariant
            lo < v.len(),
            !is_white_space(v@[lo as int]),
            lo <= hi <= v.len(),
            forall|k: int| hi <= k < v.len() ==> is_white_space(#[trigger] v@[k]),
        decreases hi,
    {
        hi = hi - 1;
    }
    proof {
        lemma_trail_ws(v@, v.len() - hi);
    }
    let mut i: usize = lo;
    while i < hi
        invariant
            lo <= i <= hi <= v.len(),
            out@ == v@.subrange(lo as int, i as int),
        decreases hi - i,
    {
        out.push(v[i]);
        assert(v@.subrange(lo as int, i + 1) == v@.subrange(lo as int, i as int).push(v@[i as int]));
        i = i + 1;
    }
    out
}

/// The tidy pass on its own: tabs become spaces, the symbols `@ # % & * ( )` go, pairs of
/// spaces are halved in one pass, and white space is trimmed from both ends.
pub fn tidy_symbols(text: &str) -> (r: String)
    ensures
        r@ == tidied(text@),
{
    let v = chars_of(text);
    let v = tabs_to_spaces_vec(&v);
    let v = without_stray_symbols_vec(&v);
    let v = halve_space_pairs_vec(&v);
    let v = trim_ws_vec(&v);
    string_of(&v)
}

/// Normalizes a text: white-space runs become one space, every character that is neither a
/// space, a letter nor punctuation is deleted, and the tidy pass runs on what is left.
pub fn clean_text(text: &str) -> (r: String)
    ensures
        r@ == normalized(text@),
{
    proof {
        reveal_strlit("\\s+");
        reveal_strlit(" ");
        reveal_strlit("[^ \\p{L}\\p{P}]");
        reveal_strlit("");
        assert("\\s+"@ == white_space_run());
        assert(" "@ == seq![' ']);
        assert("[^ \\p{L}\\p{P}]"@ == not_letter_punct_space());
        assert(""@ == Seq::<char>::empty());
    }
    let spaced = replace_matches("\\s+", text, " ");
    let kept = replace_matches("[^ \\p{L}\\p{P}]", spaced.as_str(), "");
    tidy_symbols(kept.as_str())
}

proof fn lemma_collapse_identity(y: Seq<char>)
    requires
        no_space_pair(y),
        forall|i: int| 0 <= i < y.len() && is_white_space(#[trigger] y[i]) ==> y[i] == ' ',
    ensures
        white_space_collapsed(y) == y,
    decreases y.len(),
{
    if y.len() > 0 {
        let z = y.drop_last();
        assert forall|i: int| 0 <= i < z.len() - 1 implies !(#[trigger] z[i] == ' ' && z[i + 1]
            == ' ') by {
            assert(z[i] == y[i] && z[i + 1] == y[i + 1]);
        }
        assert forall|i: int| 0 <= i < z.len() && is_white_space(#[trigger] z[i]) implies z[i]
            == ' ' by {
            assert(z[i] == y[i]);
        }
        lemma_collapse_identity(z);
        assert(is_white_space(y.last()) ==> y.last() == ' ');
        if y.len() >= 2 {
            assert(!(y[y.len() - 2] == ' ' && y[y.len() - 1] == ' '));
            assert(is_white_space(y[y.len() - 2]) ==> y[y.len() - 2] == ' ');
        }
        assert(z.push(y.last()) == y);
    }
}

/// Normalization is idempotent on its own output whenever that output holds no two adjacent
/// spaces, its white space is single spaces only, and symbol stripping leaves it as it is.
pub proof fn lemma_normalized_idempotent(x: Seq<char>)
    requires
        no_space_pair(normalized(x)),
        forall|i: int|
            0 <= i < normalized(x).len() && is_white_space(#[trigger] normalized(x)[i])
                ==> normalized(x)[i] == ' ',
        regex_replaced(not_letter_punct_space(), normalized(x), Seq::empty()) == normalized(x),
    ensures
        normalized(normalized(x)) == normalized(x),
{
    lemma_collapse_identity(normalized(x));
    let inner = regex_replaced(not_letter_punct_space(), white_space_collapsed(x), Seq::empty());
    lemma_tidy_idempotent(inner);
}

/// No two adjacent characters are both spaces.
pub open spec fn no_space_pair(s: Seq<char>) -> bool {
    forall|i: int| 0 <= i < s.len() - 1 ==> !(#[trigger] s[i] == ' ' && s[i + 1] == ' ')
}

/// Neither a tab nor a stray symbol.
pub open spec fn settled_char(c: char) -> bool {
    c != '\t' && !is_stray_symbol(c)
}

proof fn lemma_halve_identity(s: Seq<char>)
    requires
        no_space_pair(s),
    ensures
        halve_space_pairs(s) == s,
    decreases s.len(),
{
    if s.len() > 0 {
        assert(!(s.len() >= 2 && s[0] == ' ' && s[1] == ' '));
        let t = s.drop_first();
        assert forall|i: int| 0 <= i < t.len() - 1 implies !(#[trigger] t[i] == ' ' && t[i + 1]
            == ' ') by {
            assert(t[i] == s[i + 1] && t[i + 1] == s[i + 2]);
        }
        lemma_halve_identity(t);
        assert(seq![s[0]] + t == s);
    }
}

proof fn lemma_halve_settled(s: Seq<char>)
    requires
        forall|i: int| 0 <= i < s.len() ==> settled_char(#[trigger] s[i]),
    ensures
        forall|i: int|
            0 <= i < halve_space_pairs(s).len() ==> settled_char(#[trigger] halve_space_pairs(s)[i]),
    decreases s.len(),
{
    if s.len() > 0 {
        if s.len() >= 2 && s[0] == ' ' && s[1] == ' ' {
            let t = s.subrange(2, s.len() as int);
            assert forall|i: int| 0 <= i < t.len() implies settled_char(#[trigger] t[i]) by {
                assert(t[i] == s[i + 2]);
            }
            lemma_halve_settled(t);
            let h = halve_space_pairs(s);
            assert forall|i: int| 0 <= i < h.len() implies settled_char(#[trigger] h[i]) by {
                if i > 0 {
                    assert(h[i] == halve_space_pairs(t)[i - 1]);
                }
            }
        } else {
            let t = s.drop_first();
            assert forall|i: int| 0 <= i < t.len() implies settled_char(#[trigger] t[i]) by {
                assert(t[i] == s[i + 1]);
            }
            lemma_halve_settled(t);
            let h = halve_space_pairs(s);
            assert forall|i: int| 0 <= i < h.len() implies settled_char(#[trigger] h[i]) by {
                if i > 0 {
                    assert(h[i] == halve_space_pairs(t)[i - 1]);
                } else {
                    assert(settled_char(s[0]));
                }
            }
        }
    }
}

proof fn lemma_lead_bounds(s: Seq<char>)
    ensures
        lead_ws(s) <= s.len(),
        lead_ws(s) < s.len() ==> !is_white_space(s[lead_ws(s) as int]),
    decreases s.len(),
{
    if s.len() > 0 && is_white_space(s[0]) {
        lemma_lead_bounds(s.drop_first());
    }
}

proof fn lemma_trail_bounds(s: Seq<char>)
    ensures
        trail_ws(s) <= s.len(),
        forall|k: int| s.len() - trail_ws(s) <= k < s.len() ==> is_white_space(#[trigger] s[k]),
        trail_ws(s) < s.len() ==> !is_white_space(s[s.len() - 1 - trail_ws(s)]),
    decreases s.len(),
{
    if s.len() > 0 && is_white_space(s.last()) {
        lemma_trail_bounds(s.drop_last());
        assert forall|k: int| s.len() - trail_ws(s) <= k < s.len() implies is_white_space(
            #[trigger] s[k],
        ) by {
            if k < s.len() - 1 {
                assert(s[k] == s.drop_last()[k]);
            }
        }
    }
}

proof fn lemma_filter_settled(t: Seq<char>)
    requires
        forall|i: int| 0 <= i < t.len() ==> #[trigger] t[i] != '\t',
    ensures
        forall|i: int|
            0 <= i < without_stray_symbols(t).len() ==> settled_char(
                #[trigger] without_stray_symbols(t)[i],
            ),
    decreases t.len(),
{
    reveal(Seq::filter);
    if t.len() > 0 {
        let u = t.drop_last();
        assert forall|i: int| 0 <= i < u.len() implies #[trigger] u[i] != '\t' by {
            assert(u[i] == t[i]);
        }
        lemma_filter_settled(u);
        assert(t.last() != '\t');
        let fu = without_stray_symbols(u);
        let ft = without_stray_symbols(t);
        assert(ft == if !is_stray_symbol(t.last()) {
            fu.push(t.last())
        } else {
            fu
        });
        assert forall|i: int| 0 <= i < ft.len() implies settled_char(#[trigger] ft[i]) by {
            if i < fu.len() {
                assert(ft[i] == fu[i]);
            }
        }
    }
}

proof fn lemma_filter_all<A>(s: Seq<A>, p: spec_fn(A) -> bool)
    requires
        forall|i: int| 0 <= i < s.len() ==> p(#[trigger] s[i]),
    ensures
        s.filter(p) == s,
    decreases s.len(),
{
    reveal(Seq::filter);
    if s.len() > 0 {
        lemma_filter_all(s.drop_last(), p);
        assert(s.drop_last().push(s.last()) == s);
    }
}

/// The tidy pass is idempotent on its own output whenever that output holds no two adjacent
/// spaces: a second pass leaves such a text as it is.
pub proof fn lemma_tidy_idempotent(x: Seq<char>)
    requires
        no_space_pair(tidied(x)),
    ensures
        tidied(tidied(x)) == tidied(x),
{
    let t = tabs_to_spaces(x);
    let pred = |c: char| !is_stray_symbol(c);
    let f = t.filter(pred);
    let h = halve_space_pairs(f);
    let y = tidied(x);
    assert forall|i: int| 0 <= i < t.len() implies #[trigger] t[i] != '\t' by {
        assert(t[i] == if x[i] == '\t' { ' ' } else { x[i] });
    }
    lemma_filter_settled(t);
    lemma_halve_settled(f);
    lemma_lead_bounds(h);
    lemma_trail_bounds(h);
    assert forall|i: int| 0 <= i < y.len() implies settled_char(#[trigger] y[i]) by {
        assert(y[i] == h[lead_ws(h) + i]);
    }
    assert(tabs_to_spaces(y) == y);
    lemma_filter_all(y, pred);
    lemma_halve_identity(y);
    if y.len() > 0 {
        assert(y[0] == h[lead_ws(h) as int]);
        assert(y[y.len() - 1] == h[h.len() - 1 - trail_ws(h)]);
        assert(!is_white_space(y[0]));
        assert(lead_ws(y) == 0);
        assert(!is_white_space(y.last()));
        assert(trail_ws(y) == 0);
        assert(y.subrange(0, y.len() as int) == y);
    } else {
        assert(lead_ws(y) == 0);
    }
}

} // verus!

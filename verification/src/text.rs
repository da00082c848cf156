//! Small verified text utilities shared by the parser and the translator.

use vstd::prelude::*;

verus! {

broadcast use vstd::string::group_string_axioms;

/// True when the two string slices hold the same characters.
pub fn str_eq(a: &str, b: &str) -> (r: bool)
    ensures
        r == (a@ == b@),
{
    let alen = a.unicode_len();
    let blen = b.unicode_len();
    if alen != blen {
        return false;
    }
    let mut i: usize = 0;
    while i < alen
        invariant
            alen == a@.len(),
            alen == b@.len(),
            i <= alen,
            forall|j: int| 0 <= j < i ==> a@[j] == b@[j],
        decreases alen - i,
    {
        if a.get_char(i) != b.get_char(i) {
            return false;
        }
        i = i + 1;
    }
    proof {
        assert(a@ =~= b@);
    }
    true
}

/// True when `s` begins with the characters of `p`.
pub fn str_starts_with(s: &str, p: &str) -> (r: bool)
    ensures
        r == (s@.len() >= p@.len() && s@.subrange(0, p@.len() as int) == p@),
{
    let sl = s.unicode_len();
    let pl = p.unicode_len();
    if sl < pl {
        return false;
    }
    let mut i: usize = 0;
    while i < pl
        invariant
            sl == s@.len(),
            pl == p@.len(),
            pl <= sl,
            i <= pl,
            forall|j: int| 0 <= j < i ==> s@[j] == p@[j],
        decreases pl - i,
    {
        if s.get_char(i) != p.get_char(i) {
            proof {
                assert(s@.subrange(0, p@.len() as int)[i as int] == s@[i as int]);
            }
            return false;
        }
        i = i + 1;
    }
    proof {
        assert(s@.subrange(0, p@.len() as int) =~= p@);
    }
    true
}

/// The fixed keyword-escaping table: identifiers that collide with reserved
/// words of the target dialect get a trailing underscore.
pub open spec fn spec_mangle(s: Seq<char>) -> Seq<char> {
    if s == "ref"@ {
        "ref_"@
    } else if s == "type"@ {
        "type_"@
    } else {
        s
    }
}

/// Escapes the two reserved words; every other identifier is unchanged.
pub fn mangle(s: &str) -> (r: String)
    ensures
        r@ == spec_mangle(s@),
{
    if str_eq(s, "ref") {
        String::from_str("ref_")
    } else if str_eq(s, "type") {
        String::from_str("type_")
    } else {
        s.to_owned()
    }
}

/// The rendered-type texts that denote a keyed collection: the text starts
/// with `HashMap<`, ends with `>`, and has at least one character between,
/// none of which is a line break.
pub open spec fn is_hashmap_render(s: Seq<char>) -> bool {
    &&& s.len() >= 10
    &&& s.subrange(0, 8) == "HashMap<"@
    &&& s[s.len() - 1] == '>'
    &&& forall|i: int| 8 <= i < s.len() - 1 ==> s[i] != '\n'
}

/// True when a rendered type text denotes a keyed collection.
pub fn is_hashmap_type(s: &str) -> (r: bool)
    ensures
        r == is_hashmap_render(s@),
{
    proof {
        reveal_strlit("HashMap<");
    }
    let n = s.unicode_len();
    if n < 10 {
        return false;
    }
    if !str_starts_with(s, "HashMap<") {
        return false;
    }
    if s.get_char(n - 1) != '>' {
        return false;
    }
    let mut i: usize = 8;
    while i < n - 1
        invariant
            n == s@.len(),
            n >= 10,
            8 <= i <= n - 1,
            forall|j: int| 8 <= j < i ==> s@[j] != '\n',
        decreases n - 1 - i,
    {
        if s.get_char(i) == '\n' {
            return false;
        }
        i = i + 1;
    }
    true
}

/// The whitespace characters trimmed from comment and source edges: the
/// Unicode White_Space set.
pub open spec fn is_go_space(c: char) -> bool {
    ||| c == ' '
    ||| c == '\t'
    ||| c == '\n'
    ||| c == '\r'
    ||| c == '\u{000B}'
    ||| c == '\u{000C}'
    ||| c == '\u{0085}'
    ||| c == '\u{00A0}'
    ||| c == '\u{1680}'
    ||| ((c as u32) >= 0x2000 && (c as u32) <= 0x200A)
    ||| c == '\u{2028}'
    ||| c == '\u{2029}'
    ||| c == '\u{202F}'
    ||| c == '\u{205F}'
    ||| c == '\u{3000}'
}

/// True when `c` is a whitespace character.
pub fn is_space_char(c: char) -> (r: bool)
    ensures
        r == is_go_space(c),
{
    c == ' ' || c == '\t' || c == '\n' || c == '\r' || c == '\u{000B}' || c == '\u{000C}'
        || c == '\u{0085}' || c == '\u{00A0}' || c == '\u{1680}' || ((c as u32) >= 0x2000 && (c
        as u32) <= 0x200A) || c == '\u{2028}' || c == '\u{2029}' || c == '\u{202F}' || c
        == '\u{205F}' || c == '\u{3000}'
}

/// `s` with the first occurrence of `//` removed.
pub open spec fn remove_first_marker(s: Seq<char>) -> Seq<char>
    decreases s.len(),
{
    if s.len() < 2 {
        s
    } else if s[0] == '/' && s[1] == '/' {
        s.skip(2)
    } else {
        seq![s[0]] + remove_first_marker(s.skip(1))
    }
}

/// `s` without leading whitespace.
pub open spec fn trim_start_spaces(s: Seq<char>) -> Seq<char>
    decreases s.len(),
{
    if s.len() > 0 && is_go_space(s[0]) {
        trim_start_spaces(s.skip(1))
    } else {
        s
    }
}

/// `s` without trailing whitespace.
pub open spec fn trim_end_spaces(s: Seq<char>) -> Seq<char>
    decreases s.len(),
{
    if s.len() > 0 && is_go_space(s.last()) {
        trim_end_spaces(s.drop_last())
    } else {
        s
    }
}

/// What a comment's text is: the comment with its first `//` removed and
/// surrounding whitespace trimmed.
pub open spec fn spec_parse_comment(s: Seq<char>) -> Seq<char> {
    trim_end_spaces(trim_start_spaces(remove_first_marker(s)))
}

proof fn lemma_remove_marker_at(s: Seq<char>, i: int)
    requires
        0 <= i,
        i + 1 < s.len(),
        s[i] == '/',
        s[i + 1] == '/',
        forall|j: int| 0 <= j < i ==> !((#[trigger] s[j]) == '/' && s[j + 1] == '/'),
    ensures
        remove_first_marker(s) == s.take(i) + s.skip(i + 2),
    decreases i,
{
    if i == 0 {
        assert(remove_first_marker(s) =~= s.take(0) + s.skip(2));
    } else {
        lemma_remove_marker_at(s.skip(1), i - 1);
        assert(remove_first_marker(s) =~= s.take(i) + s.skip(i + 2)) by {
            assert(remove_first_marker(s) == seq![s[0]] + remove_first_marker(s.skip(1)));
            assert(s.skip(1).take(i - 1) =~= s.take(i).skip(1));
            assert(s.skip(1).skip(i + 1) =~= s.skip(i + 2));
        }
    }
}

proof fn lemma_remove_marker_none(s: Seq<char>)
    requires
        forall|j: int| 0 <= j < s.len() - 1 ==> !((#[trigger] s[j]) == '/' && s[j + 1] == '/'),
    ensures
        remove_first_marker(s) == s,
    decreases s.len(),
{
    if s.len() >= 2 {
        lemma_remove_marker_none(s.skip(1));
        assert(remove_first_marker(s) =~= s);
    }
}

proof fn lemma_trim_start_at(s: Seq<char>, lo: int)
    requires
        0 <= lo <= s.len(),
        forall|j: int| 0 <= j < lo ==> is_go_space(s[j]),
        lo < s.len() ==> !is_go_space(s[lo]),
    ensures
        trim_start_spaces(s) == s.skip(lo),
    decreases lo,
{
    if lo == 0 {
        assert(trim_start_spaces(s) =~= s.skip(0));
    } else {
        lemma_trim_start_at(s.skip(1), lo - 1);
        assert(s.skip(1).skip(lo - 1) =~= s.skip(lo));
    }
}

proof fn lemma_trim_end_at(s: Seq<char>, hi: int)
    requires
        0 <= hi <= s.len(),
        forall|j: int| hi <= j < s.len() ==> is_go_space(s[j]),
        hi > 0 ==> !is_go_space(s[hi - 1]),
    ensures
        trim_end_spaces(s) == s.take(hi),
    decreases s.len() - hi,
{
    if hi == s.len() {
        if s.len() > 0 && is_go_space(s.last()) {
            lemma_trim_end_at(s.drop_last(), hi - 1);
            assert(s.drop_last().take(hi - 1) =~= s.take(hi - 1));
            assert(false);
        } else {
            assert(trim_end_spaces(s) =~= s.take(hi));
        }
    } else {
        lemma_trim_end_at(s.drop_last(), hi);
        assert(s.drop_last().take(hi) =~= s.take(hi));
    }
}

/// The text of a comment: everything after its `//`, trimmed. The first
/// occurrence of the marker is removed, wherever it stands.
pub fn parse_comment(c: &str) -> (r: String)
    ensures
        r@ == spec_parse_comment(c@),
{
    let n = c.unicode_len();
    // Remove the first `//`.
    let mut i: usize = 0;
    if n >= 2 {
        while i < n - 1 && !(c.get_char(i) == '/' && c.get_char(i + 1) == '/')
            invariant
                n >= 2,
                n == c@.len(),
                i <= n - 1,
                forall|j: int| 0 <= j < i ==> !((#[trigger] c@[j]) == '/' && c@[j + 1] == '/'),
            decreases n - i,
        {
            i = i + 1;
        }
    }
    let stripped: String = if n >= 2 && i < n - 1 {
        proof {
            lemma_remove_marker_at(c@, i as int);
        }
        let before = c.substring_char(0, i);
        let after = c.substring_char(i + 2, n);
        String::from_str(before).concat(after)
    } else {
        proof {
            lemma_remove_marker_none(c@);
        }
        c.to_owned()
    };
    // Trim surrounding whitespace.
    let sn = stripped.as_str().unicode_len();
    let mut lo: usize = 0;
    while lo < sn && is_space_char(stripped.as_str().get_char(lo))
        invariant
            sn == stripped@.len(),
            lo <= sn,
            forall|j: int| 0 <= j < lo ==> is_go_space(stripped@[j]),
        decreases sn - lo,
    {
        lo = lo + 1;
    }
    if lo == sn {
        let empty = String::new();
        proof {
            lemma_trim_start_at(stripped@, lo as int);
            lemma_trim_end_at(stripped@.skip(lo as int), 0);
            assert(stripped@.skip(lo as int).take(0) =~= Seq::<char>::empty());
            assert(empty@ =~= spec_parse_comment(c@));
        }
        return empty;
    }
    let mut hi: usize = sn;
    while hi > lo && is_space_char(stripped.as_str().get_char(hi - 1))
        invariant
            sn == stripped@.len(),
            lo <= hi <= sn,
            forall|j: int| hi <= j < sn ==> is_go_space(stripped@[j]),
        decreases hi,
    {
        hi = hi - 1;
    }
    let out = stripped.as_str().substring_char(lo, hi).to_owned();
    proof {
        lemma_trim_start_at(stripped@, lo as int);
        lemma_trim_end_at(stripped@.skip(lo as int), hi - lo as int);
        assert(stripped@.skip(lo as int).take(hi - lo as int) =~= stripped@.subrange(
            lo as int,
            hi as int,
        ));
    }
    out
}

/// The decimal digit characters.
pub open spec fn digit_char(d: nat) -> char {
    if d == 0 {
        '0'
    } else if d == 1 {
        '1'
    } else if d == 2 {
        '2'
    } else if d == 3 {
        '3'
    } else if d == 4 {
        '4'
    } else if d == 5 {
        '5'
    } else if d == 6 {
        '6'
    } else if d == 7 {
        '7'
    } else if d == 8 {
        '8'
    } else {
        '9'
    }
}

/// The decimal rendering of a number, most significant digit first.
pub open spec fn dec_str(n: nat) -> Seq<char>
    decreases n,
{
    if n < 10 {
        seq![digit_char(n)]
    } else {
        dec_str(n / 10).push(digit_char(n % 10))
    }
}

fn digit_string(d: u64) -> (r: String)
    requires
        d < 10,
    ensures
        r@ == seq![digit_char(d as nat)],
{
    proof {
        reveal_strlit("0");
        reveal_strlit("1");
        reveal_strlit("2");
        reveal_strlit("3");
        reveal_strlit("4");
        reveal_strlit("5");
        reveal_strlit("6");
        reveal_strlit("7");
        reveal_strlit("8");
        reveal_strlit("9");
    }
    let r: String = if d == 0 {
        String::from_str("0")
    } else if d == 1 {
        String::from_str("1")
    } else if d == 2 {
        String::from_str("2")
    } else if d == 3 {
        String::from_str("3")
    } else if d == 4 {
        String::from_str("4")
    } else if d == 5 {
        String::from_str("5")
    } else if d == 6 {
        String::from_str("6")
    } else if d == 7 {
        String::from_str("7")
    } else if d == 8 {
        String::from_str("8")
    } else {
        String::from_str("9")
    };
    proof {
        assert(r@ =~= seq![digit_char(d as nat)]);
    }
    r
}

/// Renders a number in decimal.
pub fn u64_to_dec(n: u64) -> (r: String)
    ensures
        r@ == dec_str(n as nat),
    decreases n,
{
    if n < 10 {
        digit_string(n)
    } else {
        let q = u64_to_dec(n / 10);
        let d = digit_string(n % 10);
        let r = q.concat(d.as_str());
        proof {
            assert(r@ =~= dec_str(n as nat));
        }
        r
    }
}

pub proof fn lemma_dec_str_min_len(n: nat)
    ensures
        dec_str(n).len() >= 1,
    decreases n,
{
    if n >= 10 {
        lemma_dec_str_min_len(n / 10);
    }
}

/// Distinct numbers have distinct decimal renderings.
pub proof fn lemma_dec_str_injective(a: nat, b: nat)
    requires
        a != b,
    ensures
        dec_str(a) != dec_str(b),
    decreases a + b,
{
    if a < 10 && b < 10 {
        assert(digit_char(a) != digit_char(b));
        assert(dec_str(a)[0] == digit_char(a));
        assert(dec_str(b)[0] == digit_char(b));
    } else if a < 10 {
        lemma_dec_str_min_len(b / 10);
        assert(dec_str(b).len() >= 2);
        assert(dec_str(a).len() == 1);
    } else if b < 10 {
        lemma_dec_str_min_len(a / 10);
        assert(dec_str(a).len() >= 2);
        assert(dec_str(b).len() == 1);
    } else {
        if a % 10 != b % 10 {
            if dec_str(a) == dec_str(b) {
                assert(dec_str(a).last() == digit_char(a % 10));
                assert(dec_str(b).last() == digit_char(b % 10));
                assert(digit_char(a % 10) != digit_char(b % 10));
                assert(false);
            }
        } else {
            assert(a / 10 != b / 10) by {
                vstd::arithmetic::div_mod::lemma_fundamental_div_mod(a as int, 10);
                vstd::arithmetic::div_mod::lemma_fundamental_div_mod(b as int, 10);
            }
            lemma_dec_str_injective(a / 10, b / 10);
            if dec_str(a) == dec_str(b) {
                assert(dec_str(a).drop_last() =~= dec_str(a / 10));
                assert(dec_str(b).drop_last() =~= dec_str(b / 10));
                assert(false);
            }
        }
    }
}

/// The text without surrounding whitespace.
pub fn trim_text(s: &str) -> (r: String)
    ensures
        r@ == trim_end_spaces(trim_start_spaces(s@)),
{
    let n = s.unicode_len();
    let mut lo: usize = 0;
    while lo < n && is_space_char(s.get_char(lo))
        invariant
            n == s@.len(),
            lo <= n,
            forall|j: int| 0 <= j < lo ==> is_go_space(s@[j]),
        decreases n - lo,
    {
        lo = lo + 1;
    }
    if lo == n {
        let empty = String::new();
        proof {
            lemma_trim_start_at(s@, lo as int);
            lemma_trim_end_at(s@.skip(lo as int), 0);
            assert(s@.skip(lo as int).take(0) =~= Seq::<char>::empty());
            assert(empty@ =~= trim_end_spaces(trim_start_spaces(s@)));
        }
        return empty;
    }
    let mut hi: usize = n;
    while hi > lo && is_space_char(s.get_char(hi - 1))
        invariant
            n == s@.len(),
            lo <= hi <= n,
            forall|j: int| hi <= j < n ==> is_go_space(s@[j]),
        decreases hi,
    {
        hi = hi - 1;
    }
    let out = s.substring_char(lo, hi).to_owned();
    proof {
        lemma_trim_start_at(s@, lo as int);
        lemma_trim_end_at(s@.skip(lo as int), hi - lo as int);
        assert(s@.skip(lo as int).take(hi - lo as int) =~= s@.subrange(lo as int, hi as int));
    }
    out
}

/// `s` with every occurrence of `pat` replaced by `rep`, scanning left to
/// right without overlap.
pub open spec fn spec_replace(s: Seq<char>, pat: Seq<char>, rep: Seq<char>) -> Seq<char>
    decreases s.len(),
    when pat.len() >= 1
{
    if s.len() < pat.len() {
        s
    } else if s.take(pat.len() as int) == pat {
        rep + spec_replace(s.skip(pat.len() as int), pat, rep)
    } else {
        seq![s[0]] + spec_replace(s.skip(1), pat, rep)
    }
}

/// Replaces every occurrence of `pat` in `s` by `rep`, scanning left to
/// right without overlap.
pub fn replace_all(s: &str, pat: &str, rep: &str) -> (r: String)
    requires
        pat@.len() >= 1,
    ensures
        r@ == spec_replace(s@, pat@, rep@),
{
    let n = s.unicode_len();
    let plen = pat.unicode_len();
    let mut out = String::new();
    let mut i: usize = 0;
    proof {
        assert(s@.skip(0) =~= s@);
    }
    while i < n
        invariant
            n == s@.len(),
            plen == pat@.len(),
            plen >= 1,
            i <= n,
            spec_replace(s@, pat@, rep@) == out@ + spec_replace(s@.skip(i as int), pat@, rep@),
        decreases n - i,
    {
        let ghost pre = out@;
        if plen <= n && i <= n - plen && str_eq(s.substring_char(i, i + plen), pat) {
            out.append(rep);
            proof {
                assert(s@.skip(i as int).take(plen as int) =~= s@.subrange(
                    i as int,
                    i + plen as int,
                ));
                assert(s@.skip(i as int).skip(plen as int) =~= s@.skip(i + plen as int));
            }
            i = i + plen;
        } else {
            out.append(s.substring_char(i, i + 1));
            proof {
                if plen <= n && i <= n - plen {
                    assert(s@.skip(i as int).take(plen as int) =~= s@.subrange(
                        i as int,
                        i + plen as int,
                    ));
                }
                assert(s@.subrange(i as int, i + 1 as int) =~= seq![s@[i as int]]);
                assert(s@.skip(i as int).skip(1) =~= s@.skip(i + 1 as int));
            }
            i = i + 1;
        }
    }
    proof {
        assert(s@.skip(n as int) =~= Seq::<char>::empty());
        assert(out@ =~= spec_replace(s@, pat@, rep@));
    }
    out
}

/// The lines joined with a line break between each two.
pub open spec fn join_newline(ss: Seq<Seq<char>>) -> Seq<char>
    decreases ss.len(),
{
    if ss.len() == 0 {
        Seq::empty()
    } else if ss.len() == 1 {
        ss[0]
    } else {
        ss[0] + seq!['\n'] + join_newline(ss.skip(1))
    }
}

proof fn lemma_join_push(p: Seq<Seq<char>>, x: Seq<char>)
    ensures
        join_newline(p.push(x)) == if p.len() == 0 {
            x
        } else {
            join_newline(p) + seq!['\n'] + x
        },
    decreases p.len(),
{
    if p.len() == 0 {
        assert(p.push(x).len() == 1);
        assert(p.push(x)[0] == x);
    } else if p.len() == 1 {
        assert(p.push(x)[0] == p[0]);
        assert(p.push(x).skip(1) =~= seq![x]);
        assert(join_newline(seq![x]) == x);
    } else {
        lemma_join_push(p.skip(1), x);
        assert(p.push(x).skip(1) =~= p.skip(1).push(x));
        assert(p.push(x)[0] == p[0]);
    }
}

/// Joins lines with a line break between each two.
pub fn join_lines(v: &Vec<String>) -> (r: String)
    ensures
        r@ == join_newline(v@.map_values(|s: String| s@)),
{
    let mut out = String::new();
    let mut i: usize = 0;
    let n = v.len();
    while i < n
        invariant
            n == v@.len(),
            i <= n,
            out@ == join_newline(v@.map_values(|s: String| s@).take(i as int)),
        decreases n - i,
    {
        let ghost m = v@.map_values(|s: String| s@);
        if i > 0 {
            out.append("\n");
        }
        out.append(v[i].as_str());
        proof {
            reveal_strlit("\n");
            assert(m.take(i + 1 as int) =~= m.take(i as int).push(m[i as int]));
            lemma_join_push(m.take(i as int), m[i as int]);
            assert("\n"@ =~= seq!['\n']);
            if i == 0 {
                assert(out@ =~= m.take(1)[0]);
            }
        }
        i = i + 1;
    }
    proof {
        let m = v@.map_values(|s: String| s@);
        assert(m.take(n as int) =~= m);
    }
    out
}

/// Lexicographic order on character sequences by code point: the order in
/// which import paths are rendered.
pub open spec fn seq_le(a: Seq<char>, b: Seq<char>) -> bool
    decreases a.len(),
{
    if a.len() == 0 {
        true
    } else if b.len() == 0 {
        false
    } else if (a[0] as u32) < (b[0] as u32) {
        true
    } else if (a[0] as u32) > (b[0] as u32) {
        false
    } else {
        seq_le(a.skip(1), b.skip(1))
    }
}

/// The order is total.
pub proof fn lemma_seq_le_total(a: Seq<char>, b: Seq<char>)
    ensures
        seq_le(a, b) || seq_le(b, a),
    decreases a.len(),
{
    if a.len() > 0 && b.len() > 0 && (a[0] as u32) == (b[0] as u32) {
        lemma_seq_le_total(a.skip(1), b.skip(1));
    }
}

/// The order is antisymmetric: two sequences below each other are equal.
pub proof fn lemma_seq_le_antisymmetric(a: Seq<char>, b: Seq<char>)
    requires
        seq_le(a, b),
        seq_le(b, a),
    ensures
        a == b,
    decreases a.len(),
{
    if a.len() == 0 {
        assert(a =~= b);
    } else {
        assert((a[0] as u32) == (b[0] as u32));
        vstd::utf8::char_u32_cast(a[0], a[0] as u32);
        vstd::utf8::char_u32_cast(b[0], b[0] as u32);
        assert(a[0] == b[0]);
        lemma_seq_le_antisymmetric(a.skip(1), b.skip(1));
        assert(a =~= b) by {
            assert(a.skip(1) == b.skip(1));
            assert(a.len() == a.skip(1).len() + 1);
            assert(b.len() == b.skip(1).len() + 1);
            assert(forall|i: int|
                1 <= i < a.len() ==> a[i] == a.skip(1)[i - 1] && b[i] == b.skip(1)[i - 1]);
        }
    }
}

/// The order is transitive.
pub proof fn lemma_seq_le_transitive(a: Seq<char>, b: Seq<char>, c: Seq<char>)
    requires
        seq_le(a, b),
        seq_le(b, c),
    ensures
        seq_le(a, c),
    decreases a.len(),
{
    if a.len() > 0 && b.len() > 0 && c.len() > 0 && (a[0] as u32) == (b[0] as u32) && (b[0] as u32)
        == (c[0] as u32) {
        lemma_seq_le_transitive(a.skip(1), b.skip(1), c.skip(1));
    }
}

/// Compares two strings in the lexicographic order.
pub fn str_le(a: &str, b: &str) -> (r: bool)
    ensures
        r == seq_le(a@, b@),
{
    let an = a.unicode_len();
    let bn = b.unicode_len();
    let mut i: usize = 0;
    proof {
        assert(a@.skip(0) =~= a@);
        assert(b@.skip(0) =~= b@);
    }
    while i < an && i < bn
        invariant
            an == a@.len(),
            bn == b@.len(),
            i <= an,
            i <= bn,
            seq_le(a@, b@) == seq_le(a@.skip(i as int), b@.skip(i as int)),
        decreases an - i,
    {
        let ca = a.get_char(i);
        let cb = b.get_char(i);
        if (ca as u32) < (cb as u32) {
            return true;
        }
        if (ca as u32) > (cb as u32) {
            return false;
        }
        proof {
            assert(a@.skip(i as int).skip(1) =~= a@.skip(i + 1 as int));
            assert(b@.skip(i as int).skip(1) =~= b@.skip(i + 1 as int));
        }
        i = i + 1;
    }
    i == an
}

} // verus!

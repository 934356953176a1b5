//! Personality scores: five percentile components held in hundredths.
//!
//! A component is a percentile in [0, 100] with two decimal places of
//! precision, stored as an integer count of hundredths (0 ..= 10_000).
//! Distances between scores are compared through the squared Euclidean
//! distance, which is exact on integers and orders pairs the same way the
//! Euclidean distance itself does.

use crate::text::all_digits;
use crate::text::chars_to_string;
use crate::text::digit_char;
use crate::text::digit_val;
use crate::text::digits_of;
use crate::text::digits_val;
use crate::text::find_char;
use crate::text::is_digit;
use crate::text::lemma_digits_of_digits;
use crate::text::lemma_digits_of_val;
use crate::text::lemma_digits_val_mono;
use crate::text::lemma_find_char;
use crate::text::lemma_split_first;
use crate::text::split_commas;
use crate::text::str_to_chars;
use vstd::prelude::*;

verus! {

/// Largest legal component value: 100.00 percent, in hundredths.
pub const MAX_COMPONENT: u32 = 10_000;

/// One user's five personality percentiles (openness, conscientiousness,
/// extraversion, agreeableness, neuroticism), each in hundredths of a
/// percentile point.
#[derive(Clone, Copy, Debug, PartialEq, Eq, Structural)]
pub struct Scores {
    pub o: u32,
    pub c: u32,
    pub e: u32,
    pub a: u32,
    pub n: u32,
}

impl Scores {
    /// Every component lies in [0, 100.00].
    pub open spec fn wf(self) -> bool {
        self.o <= MAX_COMPONENT && self.c <= MAX_COMPONENT && self.e <= MAX_COMPONENT
            && self.a <= MAX_COMPONENT && self.n <= MAX_COMPONENT
    }

    /// Builds a score, rejecting any component above 100.00.
    pub fn new(o: u32, c: u32, e: u32, a: u32, n: u32) -> (r: Option<Scores>)
        ensures
            r is Some <==> (o <= MAX_COMPONENT && c <= MAX_COMPONENT && e <= MAX_COMPONENT
                && a <= MAX_COMPONENT && n <= MAX_COMPONENT),
            r is Some ==> r->0 == (Scores { o, c, e, a, n }) && r->0.wf(),
    {
        if o <= MAX_COMPONENT && c <= MAX_COMPONENT && e <= MAX_COMPONENT && a <= MAX_COMPONENT
            && n <= MAX_COMPONENT {
            Some(Scores { o, c, e, a, n })
        } else {
            None
        }
    }

    /// The exact middle of the score space: 50.00 in every component.
    pub fn mid() -> (r: Scores)
        ensures
            r == (Scores { o: 5000u32, c: 5000u32, e: 5000u32, a: 5000u32, n: 5000u32 }),
            r.wf(),
    {
        Scores { o: 5000, c: 5000, e: 5000, a: 5000, n: 5000 }
    }

    /// Squared Euclidean distance between two scores, as a mathematical
    /// integer.
    pub open spec fn spec_distance_sq(self, other: Scores) -> int {
        sq(self.o - other.o) + sq(self.c - other.c) + sq(self.e - other.e) + sq(
            self.a - other.a,
        ) + sq(self.n - other.n)
    }

    /// Squared Euclidean distance between two scores.  Squaring preserves
    /// the order of distances, so comparisons of this value agree with
    /// comparisons of the Euclidean distance itself.
    pub fn distance_sq(&self, other: &Scores) -> (r: u64)
        requires
            self.wf(),
            other.wf(),
        ensures
            r == self.spec_distance_sq(*other),
    {
        let d_o = diff(self.o, other.o);
        let d_c = diff(self.c, other.c);
        let d_e = diff(self.e, other.e);
        let d_a = diff(self.a, other.a);
        let d_n = diff(self.n, other.n);
        proof {
            lemma_sq_diff(self.o as int, other.o as int);
            lemma_sq_diff(self.c as int, other.c as int);
            lemma_sq_diff(self.e as int, other.e as int);
            lemma_sq_diff(self.a as int, other.a as int);
            lemma_sq_diff(self.n as int, other.n as int);
            lemma_sq_bound(d_o as int);
            lemma_sq_bound(d_c as int);
            lemma_sq_bound(d_e as int);
            lemma_sq_bound(d_a as int);
            lemma_sq_bound(d_n as int);
        }
        d_o * d_o + d_c * d_c + d_e * d_e + d_a * d_a + d_n * d_n
    }
}

/// The square of an integer.
pub open spec fn sq(x: int) -> int {
    x * x
}

/// Textual form of one component: the integer percentile, a dot, and
/// exactly two fraction digits, as in `50.25`.
pub open spec fn component_text(v: int) -> Seq<char> {
    digits_of(v / 100) + seq!['.', digit_char((v % 100) / 10), digit_char(v % 10)]
}

/// Textual form of a score: the five components joined by commas, as in
/// `50.00,50.00,50.00,50.00,50.00`.
pub open spec fn scores_text(sc: Scores) -> Seq<char> {
    component_text(sc.o as int) + seq![','] + component_text(sc.c as int) + seq![',']
        + component_text(sc.e as int) + seq![','] + component_text(sc.a as int) + seq![',']
        + component_text(sc.n as int)
}

/// Hundredths named by a fraction part of one or two digits.
pub open spec fn frac_centi(fp: Seq<char>) -> int {
    if fp.len() == 1 {
        digits_val(fp) * 10
    } else {
        digits_val(fp)
    }
}

/// Reads one component: an integer part worth at most 100, optionally
/// followed by a dot and one or two fraction digits, the whole worth at
/// most 100.00.  The result is in hundredths.
pub open spec fn parse_component(s: Seq<char>) -> Option<u32> {
    let d = find_char(s, '.');
    if d == -1 {
        if s.len() >= 1 && all_digits(s) && digits_val(s) <= 100 {
            Some((digits_val(s) * 100) as u32)
        } else {
            None
        }
    } else {
        let ip = s.subrange(0, d);
        let fp = s.subrange(d + 1, s.len() as int);
        if ip.len() >= 1 && all_digits(ip) && digits_val(ip) <= 100 && 1 <= fp.len() <= 2
            && all_digits(fp) && digits_val(ip) * 100 + frac_centi(fp) <= 10000 {
            Some((digits_val(ip) * 100 + frac_centi(fp)) as u32)
        } else {
            None
        }
    }
}

/// Reads a score: exactly five comma-separated components.
pub open spec fn parse_scores_text(s: Seq<char>) -> Option<Scores> {
    let parts = split_commas(s);
    if parts.len() == 5 && parse_component(parts[0]) is Some && parse_component(parts[1]) is Some
        && parse_component(parts[2]) is Some && parse_component(parts[3]) is Some
        && parse_component(parts[4]) is Some {
        Some(
            Scores {
                o: parse_component(parts[0])->0,
                c: parse_component(parts[1])->0,
                e: parse_component(parts[2])->0,
                a: parse_component(parts[3])->0,
                n: parse_component(parts[4])->0,
            },
        )
    } else {
        None
    }
}

impl Scores {
    /// Renders the score as its five-component text.
    pub fn to_text(&self) -> (r: String)
        requires
            self.wf(),
        ensures
            r@ == scores_text(*self),
    {
        let mut out: Vec<char> = Vec::new();
        push_component(&mut out, self.o);
        out.push(',');
        push_component(&mut out, self.c);
        out.push(',');
        push_component(&mut out, self.e);
        out.push(',');
        push_component(&mut out, self.a);
        out.push(',');
        push_component(&mut out, self.n);
        proof {
            assert(out@ =~= scores_text(*self));
        }
        chars_to_string(&out)
    }

    /// Reads a score from its comma-separated text.
    pub fn from_text(s: &str) -> (r: Option<Scores>)
        ensures
            r == parse_scores_text(s@),
            r is Some ==> r->0.wf(),
    {
        let v = str_to_chars(s);
        proof {
            assert(v@.subrange(0, v@.len() as int) =~= s@);
        }
        let parts = comma_split(&v, 0);
        if parts.len() != 5 {
            return None;
        }
        let (s0, e0) = (parts[0].0, parts[0].1);
        let (s1, e1) = (parts[1].0, parts[1].1);
        let (s2, e2) = (parts[2].0, parts[2].1);
        let (s3, e3) = (parts[3].0, parts[3].1);
        let (s4, e4) = (parts[4].0, parts[4].1);
        let o = parse_component_range(&v, s0, e0);
        let c = parse_component_range(&v, s1, e1);
        let e = parse_component_range(&v, s2, e2);
        let a = parse_component_range(&v, s3, e3);
        let n = parse_component_range(&v, s4, e4);
        match (o, c, e, a, n) {
            (Some(o), Some(c), Some(e), Some(a), Some(n)) => Some(Scores { o, c, e, a, n }),
            _ => None,
        }
    }
}

/// Appends the digit character for a value below ten.
fn digit_exec(v: u32) -> (c: char)
    requires
        v < 10,
    ensures
        c == digit_char(v as int),
{
    if v == 0 {
        '0'
    } else if v == 1 {
        '1'
    } else if v == 2 {
        '2'
    } else if v == 3 {
        '3'
    } else if v == 4 {
        '4'
    } else if v == 5 {
        '5'
    } else if v == 6 {
        '6'
    } else if v == 7 {
        '7'
    } else if v == 8 {
        '8'
    } else {
        '9'
    }
}

/// The numeric value of a digit character, or nothing for any other
/// character.
fn char_digit(c: char) -> (r: Option<u32>)
    ensures
        r is Some <==> is_digit(c),
        r is Some ==> r->0 == digit_val(c) && r->0 < 10,
{
    match c {
        '0' => Some(0),
        '1' => Some(1),
        '2' => Some(2),
        '3' => Some(3),
        '4' => Some(4),
        '5' => Some(5),
        '6' => Some(6),
        '7' => Some(7),
        '8' => Some(8),
        '9' => Some(9),
        _ => None,
    }
}

/// Appends the decimal digit string of `v`.
fn push_digits(out: &mut Vec<char>, v: u32)
    ensures
        final(out)@ == old(out)@ + digits_of(v as int),
    decreases v,
{
    if v < 10 {
        out.push(digit_exec(v));
        proof {
            assert(out@ =~= old(out)@ + digits_of(v as int));
        }
    } else {
        push_digits(out, v / 10);
        out.push(digit_exec(v % 10));
        proof {
            assert(out@ =~= old(out)@ + digits_of(v as int));
        }
    }
}

/// Appends the text of one component.
fn push_component(out: &mut Vec<char>, v: u32)
    requires
        v <= MAX_COMPONENT,
    ensures
        final(out)@ == old(out)@ + component_text(v as int),
{
    push_digits(out, v / 100);
    out.push('.');
    out.push(digit_exec((v % 100) / 10));
    out.push(digit_exec(v % 10));
    proof {
        assert(out@ =~= old(out)@ + component_text(v as int));
    }
}

/// Reads the digit string between `start` and `end`, refusing values over
/// one hundred.
fn parse_digits(v: &Vec<char>, start: usize, end: usize) -> (r: Option<u32>)
    requires
        start <= end <= v@.len(),
    ensures
        ({
            let s = v@.subrange(start as int, end as int);
            if s.len() >= 1 && all_digits(s) && digits_val(s) <= 100 {
                r == Some(digits_val(s) as u32)
            } else {
                r is None
            }
        }),
        r is Some ==> r->0 <= 100 && r->0 == digits_val(v@.subrange(start as int, end as int)),
{
    let ghost s = v@.subrange(start as int, end as int);
    if start == end {
        return None;
    }
    let mut acc: u32 = 0;
    let mut i: usize = start;
    while i < end
        invariant
            start <= i <= end <= v@.len(),
            acc <= 100,
            s == v@.subrange(start as int, end as int),
            all_digits(s.subrange(0, i - start)),
            acc == digits_val(s.subrange(0, i - start)),
        decreases end - i,
    {
        proof {
            assert(s[i - start] == v@[i as int]);
        }
        let d = match char_digit(v[i]) {
            Some(d) => d,
            None => {
                proof {
                    assert(!is_digit(s[i - start]));
                }
                return None;
            },
        };
        proof {
            assert(d == digit_val(s[i - start]));
            let t = s.subrange(0, i + 1 - start);
            assert(t.drop_last() =~= s.subrange(0, i - start));
            assert(t.last() == s[i - start]);
        }
        let nacc = acc * 10 + d;
        if nacc > 100 {
            proof {
                if all_digits(s) {
                    lemma_digits_val_mono(s, i + 1 - start);
                }
            }
            return None;
        }
        acc = nacc;
        i = i + 1;
    }
    proof {
        assert(s.subrange(0, i - start) =~= s);
    }
    Some(acc)
}

/// A digit string of at most two digits is worth at most 99.
proof fn lemma_short_digits_small(s: Seq<char>)
    requires
        all_digits(s),
        s.len() <= 2,
    ensures
        0 <= digits_val(s) <= 99,
{
    assert(digits_val(Seq::<char>::empty()) == 0);
    if s.len() == 0 {
    } else if s.len() == 1 {
        assert(s.drop_last() =~= Seq::<char>::empty());
        assert(digits_val(s) == digit_val(s.last()));
        assert(0 <= digit_val(s[0]) <= 9);
    } else {
        let h = s.drop_last();
        assert(h.drop_last() =~= Seq::<char>::empty());
        assert(digits_val(h) == digit_val(h.last()));
        assert(0 <= digit_val(s[0]) <= 9);
        assert(0 <= digit_val(s[1]) <= 9);
        assert(h.last() == s[0]);
        assert(s.last() == s[1]);
    }
}

/// Reads one component from the characters between `start` and `end`.
fn parse_component_range(v: &Vec<char>, start: usize, end: usize) -> (r: Option<u32>)
    requires
        start <= end <= v@.len(),
    ensures
        r == parse_component(v@.subrange(start as int, end as int)),
        r is Some ==> r->0 <= MAX_COMPONENT,
{
    let ghost s = v@.subrange(start as int, end as int);
    let mut i: usize = start;
    let mut dot: usize = end;
    let mut found = false;
    while i < end && !found
        invariant
            start <= i <= end <= v@.len(),
            s == v@.subrange(start as int, end as int),
            !found ==> forall|j: int| start <= j < i ==> v@[j] != '.',
            found ==> start <= dot < end && i == dot && v@[dot as int] == '.' && (forall|j: int|
                start <= j < dot ==> v@[j] != '.'),
        decreases end - i + (if found {
            0int
        } else {
            1int
        }),
    {
        if v[i] == '.' {
            dot = i;
            found = true;
        } else {
            i = i + 1;
        }
    }
    proof {
        lemma_find_char(s, '.');
        assert(forall|j: int| 0 <= j < s.len() ==> s[j] == v@[start + j]);
    }
    if !found {
        proof {
            assert(find_char(s, '.') == -1);
        }
        match parse_digits(v, start, end) {
            Some(d) => {
                proof {
                    assert(d <= 100);
                }
                Some(d * 100)
            },
            None => None,
        }
    } else {
        proof {
            let f = find_char(s, '.');
            assert(s[dot - start] == '.');
            assert(f != -1);
            assert(f == dot - start);
            assert(s.subrange(0, f) =~= v@.subrange(start as int, dot as int));
            assert(s.subrange(f + 1, s.len() as int) =~= v@.subrange(
                dot + 1 as int,
                end as int,
            ));
        }
        let ip = parse_digits(v, start, dot);
        let fplen = end - (dot + 1);
        if fplen < 1 || fplen > 2 {
            return None;
        }
        proof {
            let fpseq = v@.subrange(dot + 1 as int, end as int);
            if all_digits(fpseq) {
                lemma_short_digits_small(fpseq);
            }
        }
        let fp = parse_digits(v, dot + 1, end);
        match (ip, fp) {
            (Some(ipv), Some(fpv)) => {
                let fc = if fplen == 1 {
                    fpv * 10
                } else {
                    fpv
                };
                let total = ipv * 100 + fc;
                if total <= MAX_COMPONENT {
                    Some(total)
                } else {
                    None
                }
            },
            _ => None,
        }
    }
}

/// Splits the characters from `start` on into the pieces between commas,
/// returned as index ranges.
fn comma_split(v: &Vec<char>, start: usize) -> (parts: Vec<(usize, usize)>)
    requires
        start <= v@.len(),
    ensures
        parts@.len() == split_commas(v@.subrange(start as int, v@.len() as int)).len(),
        forall|k: int|
            0 <= k < parts@.len() ==> start <= (#[trigger] parts@[k]).0 <= parts@[k].1 <= v@.len()
                && v@.subrange(parts@[k].0 as int, parts@[k].1 as int) == split_commas(
                v@.subrange(start as int, v@.len() as int),
            )[k],
    decreases v@.len() - start,
{
    let ghost s = v@.subrange(start as int, v@.len() as int);
    let mut i: usize = start;
    let mut comma: usize = 0;
    let mut found = false;
    let n = v.len();
    while i < n && !found
        invariant
            start <= i <= n == v@.len(),
            s == v@.subrange(start as int, v@.len() as int),
            !found ==> forall|j: int| start <= j < i ==> v@[j] != ',',
            found ==> start <= comma < n && i == comma && v@[comma as int] == ',' && (forall|
                j: int,
            |
                start <= j < comma ==> v@[j] != ','),
        decreases n - i + (if found {
            0int
        } else {
            1int
        }),
    {
        if v[i] == ',' {
            comma = i;
            found = true;
        } else {
            i = i + 1;
        }
    }
    proof {
        lemma_find_char(s, ',');
        assert(forall|j: int| 0 <= j < s.len() ==> s[j] == v@[start + j]);
    }
    if !found {
        proof {
            assert(find_char(s, ',') == -1);
        }
        let mut parts: Vec<(usize, usize)> = Vec::new();
        parts.push((start, n));
        proof {
            assert(v@.subrange(start as int, n as int) =~= s);
        }
        parts
    } else {
        proof {
            let f = find_char(s, ',');
            assert(s[comma - start] == ',');
            assert(f != -1);
            assert(f == comma - start);
            assert(s.subrange(0, f) =~= v@.subrange(start as int, comma as int));
            assert(s.subrange(f + 1, s.len() as int) =~= v@.subrange(
                comma + 1 as int,
                v@.len() as int,
            ));
        }
        let mut parts = comma_split(v, comma + 1);
        parts.insert(0, (start, comma));
        proof {
            let whole = split_commas(s);
            let rest = split_commas(v@.subrange(comma + 1 as int, v@.len() as int));
            assert(whole == seq![v@.subrange(start as int, comma as int)] + rest);
            assert(whole[0] == v@.subrange(start as int, comma as int));
            assert(forall|k: int| 1 <= k < whole.len() ==> whole[k] == rest[k - 1]);
        }
        parts
    }
}

/// Absolute difference of two components, as a u64 small enough that the
/// five squared differences sum without overflow.
fn diff(x: u32, y: u32) -> (r: u64)
    requires
        x <= MAX_COMPONENT,
        y <= MAX_COMPONENT,
    ensures
        r == if x >= y {
            x - y
        } else {
            y - x
        },
        r <= MAX_COMPONENT,
{
    if x >= y {
        (x - y) as u64
    } else {
        (y - x) as u64
    }
}

/// Every character of a component's text is a digit or the dot.
proof fn lemma_component_text_chars(v: int)
    requires
        0 <= v <= MAX_COMPONENT,
    ensures
        forall|i: int|
            0 <= i < component_text(v).len() ==> (is_digit(#[trigger] component_text(v)[i])
                || component_text(v)[i] == '.'),
{
    lemma_digits_of_digits(v / 100);
    let ct = component_text(v);
    let ip = digits_of(v / 100);
    assert(0 <= (v % 100) / 10 < 10);
    assert(0 <= v % 10 < 10);
    assert(is_digit(digit_char((v % 100) / 10)));
    assert(is_digit(digit_char(v % 10)));
    assert forall|i: int| 0 <= i < ct.len() implies (is_digit(#[trigger] ct[i]) || ct[i]
        == '.') by {
        if i < ip.len() {
            assert(ct[i] == ip[i]);
        } else {
            assert(ct[i] == seq!['.', digit_char((v % 100) / 10), digit_char(v % 10)][i
                - ip.len()]);
        }
    }
}

/// Reading back the text of a legal component value gives the value.
proof fn lemma_parse_component_roundtrip(v: int)
    requires
        0 <= v <= MAX_COMPONENT,
    ensures
        parse_component(component_text(v)) == Some(v as u32),
{
    let s = component_text(v);
    let ip = digits_of(v / 100);
    lemma_digits_of_digits(v / 100);
    lemma_digits_of_val(v / 100);
    lemma_find_char(s, '.');
    assert(forall|i: int| 0 <= i < ip.len() ==> s[i] == ip[i]);
    assert(s[ip.len() as int] == '.');
    assert(forall|i: int| 0 <= i < ip.len() ==> is_digit(#[trigger] ip[i]) && ip[i] != '.');
    let f = find_char(s, '.');
    assert(f != -1);
    assert(f == ip.len());
    assert(s.subrange(0, f) =~= ip);
    let fp = s.subrange(f + 1, s.len() as int);
    let d1 = digit_char((v % 100) / 10);
    let d2 = digit_char(v % 10);
    assert(fp =~= seq![d1, d2]);
    assert(fp.drop_last() =~= seq![d1]);
    assert(seq![d1].drop_last() =~= Seq::<char>::empty());
    assert(digits_val(Seq::<char>::empty()) == 0);
    assert(digits_val(seq![d1]) == digit_val(d1));
    assert(digit_val(d1) == (v % 100) / 10);
    assert(digit_val(d2) == v % 10);
    assert(digits_val(fp) == ((v % 100) / 10) * 10 + v % 10);
    assert(((v % 100) / 10) * 10 + v % 10 == v % 100) by (nonlinear_arith)
        requires
            0 <= v,
    ;
    assert(all_digits(fp));
    assert(digits_val(ip) == v / 100);
    assert(digits_val(ip) * 100 + frac_centi(fp) == v);
}

/// Reading back the text of a well-formed score gives the score.
pub proof fn lemma_scores_text_roundtrip(sc: Scores)
    requires
        sc.wf(),
    ensures
        parse_scores_text(scores_text(sc)) == Some(sc),
{
    let t_o = component_text(sc.o as int);
    let t_c = component_text(sc.c as int);
    let t_e = component_text(sc.e as int);
    let t_a = component_text(sc.a as int);
    let t_n = component_text(sc.n as int);
    lemma_component_text_chars(sc.o as int);
    lemma_component_text_chars(sc.c as int);
    lemma_component_text_chars(sc.e as int);
    lemma_component_text_chars(sc.a as int);
    lemma_component_text_chars(sc.n as int);
    let r1 = t_c + seq![','] + t_e + seq![','] + t_a + seq![','] + t_n;
    let r2 = t_e + seq![','] + t_a + seq![','] + t_n;
    let r3 = t_a + seq![','] + t_n;
    let r4 = t_n;
    assert(scores_text(sc) =~= t_o + seq![','] + r1);
    assert(r1 =~= t_c + seq![','] + r2);
    assert(r2 =~= t_e + seq![','] + r3);
    assert(r3 =~= t_a + seq![','] + r4);
    lemma_split_first(t_o, r1);
    lemma_split_first(t_c, r2);
    lemma_split_first(t_e, r3);
    lemma_split_first(t_a, r4);
    lemma_find_char(r4, ',');
    assert(find_char(r4, ',') == -1);
    assert(split_commas(r4) =~= seq![r4]);
    let parts = split_commas(scores_text(sc));
    assert(parts =~= seq![t_o, t_c, t_e, t_a, t_n]);
    lemma_parse_component_roundtrip(sc.o as int);
    lemma_parse_component_roundtrip(sc.c as int);
    lemma_parse_component_roundtrip(sc.e as int);
    lemma_parse_component_roundtrip(sc.a as int);
    lemma_parse_component_roundtrip(sc.n as int);
}

/// Two well-formed scores with the same text are the same score.
pub proof fn lemma_scores_text_injective(a: Scores, b: Scores)
    requires
        a.wf(),
        b.wf(),
        scores_text(a) == scores_text(b),
    ensures
        a == b,
{
    lemma_scores_text_roundtrip(a);
    lemma_scores_text_roundtrip(b);
}

/// A bounded component difference has a bounded square.
proof fn lemma_sq_bound(x: int)
    requires
        0 <= x <= MAX_COMPONENT,
    ensures
        0 <= sq(x) <= MAX_COMPONENT * MAX_COMPONENT,
{
    assert(x * x <= MAX_COMPONENT * MAX_COMPONENT) by (nonlinear_arith)
        requires
            0 <= x <= MAX_COMPONENT,
    ;
    assert(0 <= x * x) by (nonlinear_arith)
        requires
            0 <= x,
    ;
}

/// Squaring the absolute difference gives the square of the difference.
proof fn lemma_sq_diff(x: int, y: int)
    ensures
        sq(x - y) == sq(if x >= y {
            x - y
        } else {
            y - x
        }),
{
    assert(sq(x - y) == sq(y - x)) by (nonlinear_arith);
}

} // verus!

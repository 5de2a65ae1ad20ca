//! Text normalization for comparing rendered reports: blank lines are
//! dropped, trailing whitespace goes, the tokens between commas are trimmed,
//! and every token that is a plain decimal number (an optional minus, one or
//! more digits, and optionally a dot followed by one or more digits) is
//! reformatted with exactly four fractional digits — padded with zeros, or
//! cut after the fourth. Everything else passes through unchanged.

use vstd::prelude::*;
use vstd::string::StrSliceExecFns;

verus! {

/// The whitespace characters the normalizer strips: blank, tab and the
/// carriage return a Windows line ending leaves behind.
pub open spec fn is_ws(c: char) -> bool {
    c == ' ' || c == '\t' || c == '\r'
}

/// True when the sequence holds nothing but whitespace (so also when empty).
pub open spec fn all_ws(s: Seq<char>) -> bool {
    forall|i: int| 0 <= i < s.len() ==> is_ws(#[trigger] s[i])
}

/// An ASCII decimal digit.
pub open spec fn is_digit(c: char) -> bool {
    48 <= c as u32 <= 57
}

/// Every character a digit; the sequence may be empty.
pub open spec fn all_digits(s: Seq<char>) -> bool {
    forall|i: int| 0 <= i < s.len() ==> is_digit(#[trigger] s[i])
}

/// The sequence split at every occurrence of the separator; n separators
/// yield n + 1 segments, empty segments included.
pub open spec fn split_on(s: Seq<char>, sep: char) -> Seq<Seq<char>>
    decreases s.len(),
{
    if s.len() == 0 {
        seq![s]
    } else if s[0] == sep {
        seq![Seq::<char>::empty()] + split_on(s.skip(1), sep)
    } else {
        let rest = split_on(s.skip(1), sep);
        seq![seq![s[0]] + rest[0]] + rest.skip(1)
    }
}

/// The segments joined again, one separator between neighbours.
pub open spec fn join_with(parts: Seq<Seq<char>>, sep: char) -> Seq<char>
    decreases parts.len(),
{
    if parts.len() == 0 {
        Seq::<char>::empty()
    } else if parts.len() == 1 {
        parts[0]
    } else {
        parts[0] + seq![sep] + join_with(parts.skip(1), sep)
    }
}

/// The sequence with leading whitespace removed.
pub open spec fn trim_start(s: Seq<char>) -> Seq<char>
    decreases s.len(),
{
    if s.len() > 0 && is_ws(s[0]) {
        trim_start(s.skip(1))
    } else {
        s
    }
}

/// The sequence with trailing whitespace removed.
pub open spec fn trim_end(s: Seq<char>) -> Seq<char>
    decreases s.len(),
{
    if s.len() > 0 && is_ws(s.last()) {
        trim_end(s.take(s.len() - 1))
    } else {
        s
    }
}

/// The sequence with whitespace removed on both sides.
pub open spec fn trim(s: Seq<char>) -> Seq<char> {
    trim_end(trim_start(s))
}

/// The index of the first occurrence of the character, or the length when
/// there is none.
pub open spec fn find_char(s: Seq<char>, c: char) -> int
    decreases s.len(),
{
    if s.len() == 0 {
        0
    } else if s[0] == c {
        0
    } else {
        1 + find_char(s.skip(1), c)
    }
}

/// The token without its sign: what follows a leading minus, or the whole
/// token when there is no minus.
pub open spec fn unsigned_part(t: Seq<char>) -> Seq<char> {
    if t.len() > 0 && t[0] == '-' {
        t.skip(1)
    } else {
        t
    }
}

/// A plain decimal number: an optional minus, one or more digits, and
/// optionally a dot followed by one or more digits.
pub open spec fn is_plain_number(t: Seq<char>) -> bool {
    let u = unsigned_part(t);
    let d = find_char(u, '.');
    if d == u.len() {
        u.len() > 0 && all_digits(u)
    } else {
        d > 0 && all_digits(u.take(d)) && u.len() > d + 1 && all_digits(u.skip(d + 1))
    }
}

/// A plain decimal number rewritten with exactly four fractional digits:
/// the fraction is padded with zeros, or cut after the fourth digit.
pub open spec fn normalize_number(t: Seq<char>) -> Seq<char> {
    let sign: Seq<char> = if t.len() > 0 && t[0] == '-' {
        seq!['-']
    } else {
        Seq::<char>::empty()
    };
    let u = unsigned_part(t);
    let d = find_char(u, '.');
    let frac: Seq<char> = if d == u.len() {
        Seq::<char>::empty()
    } else {
        u.skip(d + 1)
    };
    sign + u.take(d) + seq!['.'] + (frac + seq!['0', '0', '0', '0']).take(4)
}

/// What becomes of one comma-separated token: a plain decimal number is
/// reformatted, anything else passes through unchanged.
pub open spec fn normalize_token(t: Seq<char>) -> Seq<char> {
    if is_plain_number(t) {
        normalize_number(t)
    } else {
        t
    }
}

/// What becomes of one line: trailing whitespace goes, and each
/// comma-separated token is trimmed and normalized.
pub open spec fn normalize_line(l: Seq<char>) -> Seq<char> {
    join_with(normalized_tokens(split_on(trim_end(l), ',')), ',')
}

/// Each token trimmed and normalized, in order.
pub open spec fn normalized_tokens(toks: Seq<Seq<char>>) -> Seq<Seq<char>>
    decreases toks.len(),
{
    if toks.len() == 0 {
        Seq::<Seq<char>>::empty()
    } else {
        normalized_tokens(toks.drop_last()).push(normalize_token(trim(toks.last())))
    }
}

/// The lines that are not pure whitespace, each normalized, in order.
pub open spec fn normalized_lines(lines: Seq<Seq<char>>) -> Seq<Seq<char>>
    decreases lines.len(),
{
    if lines.len() == 0 {
        Seq::<Seq<char>>::empty()
    } else {
        let prev = normalized_lines(lines.drop_last());
        if all_ws(lines.last()) {
            prev
        } else {
            prev.push(normalize_line(lines.last()))
        }
    }
}

/// What the normalizer hands back for a whole text.
pub open spec fn normalize_text_spec(s: Seq<char>) -> Seq<char> {
    join_with(normalized_lines(split_on(s, '\n')), '\n')
}

proof fn lemma_split_no_sep(a: Seq<char>, sep: char)
    requires
        forall|j: int| 0 <= j < a.len() ==> a[j] != sep,
    ensures
        split_on(a, sep) == seq![a],
    decreases a.len(),
{
    if a.len() == 0 {
    } else {
        lemma_split_no_sep(a.skip(1), sep);
        assert(seq![a[0]] + a.skip(1) =~= a);
        assert(split_on(a, sep) =~~= seq![a]);
    }
}

proof fn lemma_split_past_sep(a: Seq<char>, b: Seq<char>, sep: char)
    requires
        forall|j: int| 0 <= j < a.len() ==> a[j] != sep,
    ensures
        split_on(a + seq![sep] + b, sep) == seq![a] + split_on(b, sep),
    decreases a.len(),
{
    let s = a + seq![sep] + b;
    if a.len() == 0 {
        assert(s =~= seq![sep] + b);
        assert(s[0] == sep);
        assert(s.skip(1) =~= b);
        assert(a =~= Seq::<char>::empty());
        assert(split_on(s, sep) =~~= seq![a] + split_on(b, sep));
    } else {
        assert(s[0] == a[0]);
        assert(s.skip(1) =~= a.skip(1) + seq![sep] + b);
        lemma_split_past_sep(a.skip(1), b, sep);
        let rest = split_on(s.skip(1), sep);
        assert(rest[0] == a.skip(1));
        assert(seq![s[0]] + rest[0] =~= a);
        assert(rest.skip(1) =~~= split_on(b, sep));
        assert(split_on(s, sep) =~~= seq![a] + split_on(b, sep));
    }
}

proof fn lemma_join_push(parts: Seq<Seq<char>>, x: Seq<char>, sep: char)
    ensures
        join_with(parts.push(x), sep) == if parts.len() == 0 {
            x
        } else {
            join_with(parts, sep) + seq![sep] + x
        },
    decreases parts.len(),
{
    if parts.len() == 0 {
        assert(parts.push(x)[0] == x);
    } else {
        assert(parts.push(x)[0] == parts[0]);
        assert(parts.push(x).skip(1) =~~= parts.skip(1).push(x));
        lemma_join_push(parts.skip(1), x, sep);
        if parts.len() == 1 {
            assert(join_with(parts.push(x), sep) =~= parts[0] + seq![sep] + x);
            assert(join_with(parts, sep) == parts[0]);
        } else {
            assert(join_with(parts.push(x), sep) =~= join_with(parts, sep) + seq![sep] + x);
        }
    }
}

proof fn lemma_find_char_at(s: Seq<char>, c: char, k: int)
    requires
        0 <= k <= s.len(),
        forall|j: int| 0 <= j < k ==> s[j] != c,
        k < s.len() ==> s[k] == c,
    ensures
        find_char(s, c) == if k < s.len() {
            k
        } else {
            s.len() as int
        },
    decreases k,
{
    if s.len() == 0 {
    } else if k == 0 {
    } else {
        assert(s[0] != c);
        assert(forall|j: int| 0 <= j < k - 1 ==> s.skip(1)[j] != c);
        lemma_find_char_at(s.skip(1), c, k - 1);
    }
}

fn push_all(out: &mut Vec<char>, src: &Vec<char>)
    ensures
        final(out)@ == old(out)@ + src@,
{
    let mut k: usize = 0;
    while k < src.len()
        invariant
            0 <= k <= src@.len(),
            out@ == old(out)@ + src@.take(k as int),
        decreases src@.len() - k,
    {
        out.push(src[k]);
        proof {
            assert(old(out)@ + src@.take(k as int + 1) =~= (old(out)@ + src@.take(
                k as int,
            )).push(src@[k as int]));
        }
        k = k + 1;
    }
    proof {
        assert(src@.take(src@.len() as int) =~= src@);
    }
}

fn is_ws_exec(c: char) -> (r: bool)
    ensures
        r == is_ws(c),
{
    c == ' ' || c == '\t' || c == '\r'
}

fn all_ws_exec(s: &Vec<char>) -> (r: bool)
    ensures
        r == all_ws(s@),
{
    let mut ok = true;
    let mut i: usize = 0;
    while i < s.len()
        invariant
            0 <= i <= s@.len(),
            ok == (forall|j: int| 0 <= j < i ==> is_ws(#[trigger] s@[j])),
        decreases s@.len() - i,
    {
        if !is_ws_exec(s[i]) {
            ok = false;
        }
        i = i + 1;
    }
    ok
}

fn trim_start_exec(s: &Vec<char>) -> (r: Vec<char>)
    ensures
        r@ == trim_start(s@),
{
    let mut i: usize = 0;
    proof {
        assert(s@.skip(0) =~= s@);
    }
    while i < s.len() && (s[i] == ' ' || s[i] == '\t' || s[i] == '\r')
        invariant
            0 <= i <= s@.len(),
            trim_start(s@) == trim_start(s@.skip(i as int)),
        decreases s@.len() - i,
    {
        proof {
            assert(s@.skip(i as int).skip(1) =~= s@.skip(i as int + 1));
        }
        i = i + 1;
    }
    let mut out: Vec<char> = Vec::new();
    let mut j: usize = i;
    while j < s.len()
        invariant
            i <= j <= s@.len(),
            out@ == s@.subrange(i as int, j as int),
        decreases s@.len() - j,
    {
        out.push(s[j]);
        proof {
            assert(s@.subrange(i as int, j as int + 1) =~= s@.subrange(i as int, j as int).push(
                s@[j as int],
            ));
        }
        j = j + 1;
    }
    proof {
        assert(s@.subrange(i as int, s@.len() as int) =~= s@.skip(i as int));
    }
    out
}

fn trim_end_exec(s: &Vec<char>) -> (r: Vec<char>)
    ensures
        r@ == trim_end(s@),
{
    let mut j: usize = s.len();
    proof {
        assert(s@.take(s@.len() as int) =~= s@);
    }
    while j > 0 && (s[j - 1] == ' ' || s[j - 1] == '\t' || s[j - 1] == '\r')
        invariant
            0 <= j <= s@.len(),
            trim_end(s@) == trim_end(s@.take(j as int)),
        decreases j,
    {
        proof {
            assert(s@.take(j as int).take(j as int - 1) =~= s@.take(j as int - 1));
            assert(s@.take(j as int).last() == s@[j as int - 1]);
        }
        j = j - 1;
    }
    let mut out: Vec<char> = Vec::new();
    let mut k: usize = 0;
    while k < j
        invariant
            0 <= k <= j <= s@.len(),
            out@ == s@.take(j as int).take(k as int),
        decreases j - k,
    {
        out.push(s[k]);
        proof {
            assert(s@.take(j as int).take(k as int + 1) =~= s@.take(j as int).take(
                k as int,
            ).push(s@[k as int]));
        }
        k = k + 1;
    }
    proof {
        assert(s@.take(j as int).take(j as int) =~= s@.take(j as int));
    }
    out
}

fn trim_exec(s: &Vec<char>) -> (r: Vec<char>)
    ensures
        r@ == trim(s@),
{
    let t = trim_start_exec(s);
    trim_end_exec(&t)
}

fn split_chars(s: &Vec<char>, sep: char) -> (r: Vec<Vec<char>>)
    ensures
        r.deep_view() == split_on(s@, sep),
{
    let mut done: Vec<Vec<char>> = Vec::new();
    let mut cur: Vec<char> = Vec::new();
    let mut i: usize = 0;
    proof {
        assert(cur@ + s@.skip(0) =~= s@);
    }
    while i < s.len()
        invariant
            0 <= i <= s@.len(),
            forall|j: int| 0 <= j < cur@.len() ==> cur@[j] != sep,
            split_on(s@, sep) == done.deep_view() + split_on(cur@ + s@.skip(i as int), sep),
        decreases s@.len() - i,
    {
        let c = s[i];
        if c == sep {
            let ghost dv0 = done.deep_view();
            let ghost cur0 = cur@;
            proof {
                assert(cur0 + s@.skip(i as int) =~= cur0 + seq![sep] + s@.skip(i as int + 1));
                lemma_split_past_sep(cur0, s@.skip(i as int + 1), sep);
            }
            done.push(cur);
            cur = Vec::new();
            proof {
                assert(done.deep_view() =~~= dv0.push(cur0));
                assert(cur@ + s@.skip(i as int + 1) =~= s@.skip(i as int + 1));
                assert(dv0 + (seq![cur0] + split_on(s@.skip(i as int + 1), sep)) =~~= dv0.push(
                    cur0,
                ) + split_on(s@.skip(i as int + 1), sep));
            }
        } else {
            let ghost cur0 = cur@;
            cur.push(c);
            proof {
                assert(cur@ + s@.skip(i as int + 1) =~= cur0 + s@.skip(i as int));
            }
        }
        i = i + 1;
    }
    let ghost dv0 = done.deep_view();
    let ghost cur0 = cur@;
    proof {
        assert(cur0 + s@.skip(i as int) =~= cur0);
        lemma_split_no_sep(cur0, sep);
    }
    done.push(cur);
    proof {
        assert(done.deep_view() =~~= dv0.push(cur0));
        assert(dv0 + seq![cur0] =~~= dv0.push(cur0));
    }
    done
}

fn join_chars(parts: &Vec<Vec<char>>, sep: char) -> (r: Vec<char>)
    ensures
        r@ == join_with(parts.deep_view(), sep),
{
    let mut out: Vec<char> = Vec::new();
    let mut p: usize = 0;
    while p < parts.len()
        invariant
            0 <= p <= parts@.len(),
            parts@.len() == parts.deep_view().len(),
            out@ == join_with(parts.deep_view().take(p as int), sep),
        decreases parts@.len() - p,
    {
        if p > 0 {
            out.push(sep);
        }
        push_all(&mut out, &parts[p]);
        proof {
            lemma_join_push(parts.deep_view().take(p as int), parts.deep_view()[p as int], sep);
            assert(parts.deep_view().take(p as int).push(parts.deep_view()[p as int]) =~~= parts.deep_view().take(
                p as int + 1,
            ));
            assert(parts@[p as int]@ =~= parts.deep_view()[p as int]);
        }
        p = p + 1;
    }
    proof {
        assert(parts.deep_view().take(parts@.len() as int) =~~= parts.deep_view());
    }
    out
}

fn normalize_token_exec(t: &Vec<char>) -> (r: Vec<char>)
    ensures
        r@ == normalize_token(t@),
{
    let neg = t.len() > 0 && t[0] == '-';
    let start: usize = if neg {
        1
    } else {
        0
    };
    let mut u: Vec<char> = Vec::new();
    let mut k: usize = start;
    while k < t.len()
        invariant
            start <= k <= t@.len(),
            u@ == t@.subrange(start as int, k as int),
        decreases t@.len() - k,
    {
        u.push(t[k]);
        proof {
            assert(t@.subrange(start as int, k as int + 1) =~= t@.subrange(
                start as int,
                k as int,
            ).push(t@[k as int]));
        }
        k = k + 1;
    }
    proof {
        assert(t@.subrange(start as int, t@.len() as int) =~= t@.skip(start as int));
        if neg {
            assert(u@ == unsigned_part(t@));
        } else {
            assert(t@.subrange(0, t@.len() as int) =~= t@);
            assert(u@ == unsigned_part(t@));
        }
    }
    // find the first dot
    let mut d: usize = 0;
    while d < u.len() && u[d] != '.'
        invariant
            0 <= d <= u@.len(),
            forall|j: int| 0 <= j < d ==> u@[j] != '.',
        decreases u@.len() - d,
    {
        d = d + 1;
    }
    proof {
        lemma_find_char_at(u@, '.', d as int);
    }
    // digits before the dot
    let mut int_ok = true;
    let mut a: usize = 0;
    while a < d
        invariant
            0 <= a <= d <= u@.len(),
            int_ok == (forall|j: int| 0 <= j < a ==> is_digit(#[trigger] u@[j])),
        decreases d - a,
    {
        let cu = u[a] as u32;
        if !(48 <= cu && cu <= 57) {
            int_ok = false;
        }
        a = a + 1;
    }
    // digits after the dot, if there is one
    let has_dot = d < u.len();
    let mut frac_ok = true;
    let mut b: usize = if has_dot {
        d + 1
    } else {
        u.len()
    };
    let ghost b0 = b as int;
    while b < u.len()
        invariant
            b0 <= b <= u@.len(),
            frac_ok == (forall|j: int| b0 <= j < b ==> is_digit(#[trigger] u@[j])),
        decreases u@.len() - b,
    {
        let cu = u[b] as u32;
        if !(48 <= cu && cu <= 57) {
            frac_ok = false;
        }
        b = b + 1;
    }
    let is_number = d > 0 && int_ok && (!has_dot || (u.len() > d + 1 && frac_ok));
    proof {
        assert(forall|j: int| 0 <= j < d ==> u@.take(d as int)[j] == u@[j]);
        assert(int_ok == all_digits(u@.take(d as int)));
        if has_dot {
            let fr = u@.skip(d as int + 1);
            assert(forall|j: int| 0 <= j < fr.len() ==> #[trigger] fr[j] == u@[d + 1 + j]);
            if frac_ok {
                assert(all_digits(fr));
            } else {
                let j = choose|j: int| !(b0 <= j < u@.len() ==> is_digit(#[trigger] u@[j]));
                assert(fr[j - d - 1] == u@[j]);
                assert(!all_digits(fr));
            }
            assert(frac_ok == all_digits(fr));
        }
        assert(is_number == is_plain_number(t@));
    }
    if !is_number {
        let mut copy: Vec<char> = Vec::new();
        push_all(&mut copy, t);
        return copy;
    }
    let mut out: Vec<char> = Vec::new();
    if neg {
        out.push('-');
    }
    let mut q: usize = 0;
    let ghost sign: Seq<char> = if neg {
        seq!['-']
    } else {
        Seq::<char>::empty()
    };
    proof {
        assert(out@ =~= sign);
    }
    while q < d
        invariant
            0 <= q <= d <= u@.len(),
            out@ == sign + u@.take(d as int).take(q as int),
        decreases d - q,
    {
        out.push(u[q]);
        proof {
            assert(sign + u@.take(d as int).take(q as int + 1) =~= (sign + u@.take(
                d as int,
            ).take(q as int)).push(u@[q as int]));
        }
        q = q + 1;
    }
    proof {
        assert(u@.take(d as int).take(d as int) =~= u@.take(d as int));
    }
    out.push('.');
    let ghost frac: Seq<char> = if d == u@.len() {
        Seq::<char>::empty()
    } else {
        u@.skip(d as int + 1)
    };
    let ghost padded = (frac + seq!['0', '0', '0', '0']).take(4);
    let mut f: usize = 0;
    while f < 4
        invariant
            0 <= f <= 4,
            d <= u@.len(),
            frac == if d == u@.len() {
                Seq::<char>::empty()
            } else {
                u@.skip(d as int + 1)
            },
            padded == (frac + seq!['0', '0', '0', '0']).take(4),
            out@ == sign + u@.take(d as int) + seq!['.'] + padded.take(f as int),
        decreases 4 - f,
    {
        let c: char = if d < u.len() && f < u.len() - (d + 1) {
            u[d + 1 + f]
        } else {
            '0'
        };
        proof {
            assert(padded[f as int] == c);
            assert(padded.take(f as int + 1) =~= padded.take(f as int).push(padded[f as int]));
            assert(sign + u@.take(d as int) + seq!['.'] + padded.take(f as int + 1) =~= (sign
                + u@.take(d as int) + seq!['.'] + padded.take(f as int)).push(c));
        }
        out.push(c);
        f = f + 1;
    }
    proof {
        assert(padded.take(4) =~= padded);
        assert(out@ =~= normalize_number(t@));
    }
    out
}

fn normalize_line_exec(l: &Vec<char>) -> (r: Vec<char>)
    ensures
        r@ == normalize_line(l@),
{
    let te = trim_end_exec(l);
    let parts = split_chars(&te, ',');
    let mut outs: Vec<Vec<char>> = Vec::new();
    let mut p: usize = 0;
    proof {
        assert(parts.deep_view().take(0) =~~= Seq::<Seq<char>>::empty());
        assert(outs.deep_view() =~~= normalized_tokens(parts.deep_view().take(0)));
    }
    while p < parts.len()
        invariant
            0 <= p <= parts@.len(),
            parts@.len() == parts.deep_view().len(),
            outs.deep_view() == normalized_tokens(parts.deep_view().take(p as int)),
        decreases parts@.len() - p,
    {
        let ghost dv0 = outs.deep_view();
        let tr = trim_exec(&parts[p]);
        let nt = normalize_token_exec(&tr);
        proof {
            assert(parts@[p as int]@ =~= parts.deep_view()[p as int]);
        }
        outs.push(nt);
        proof {
            assert(outs.deep_view() =~~= dv0.push(nt@));
            assert(parts.deep_view().take(p as int + 1).drop_last() =~~= parts.deep_view().take(
                p as int,
            ));
            assert(parts.deep_view().take(p as int + 1).last() == parts.deep_view()[p as int]);
        }
        p = p + 1;
    }
    proof {
        assert(parts.deep_view().take(parts@.len() as int) =~~= parts.deep_view());
    }
    join_chars(&outs, ',')
}

/// Relies on `String::from_iter` over characters: the collected string's
/// characters are exactly the iterator's items, in order.
#[verifier::external_body]
pub(crate) fn chars_to_string(v: Vec<char>) -> (r: String)
    ensures
        r@ == v@,
{
    v.into_iter().collect()
}

/// Normalizes a multi-line text for comparison: drops whitespace-only lines,
/// trims line ends and the tokens between commas, and rewrites every token
/// that is a plain decimal number with exactly four fractional digits.
pub fn normalize_text(text: &str) -> (r: String)
    ensures
        r@ == normalize_text_spec(text@),
{
    let n = text.unicode_len();
    let mut chars: Vec<char> = Vec::new();
    let mut i: usize = 0;
    while i < n
        invariant
            0 <= i <= n,
            n == text@.len(),
            chars@ == text@.take(i as int),
        decreases n - i,
    {
        chars.push(text.get_char(i));
        proof {
            assert(text@.take(i as int + 1) =~= text@.take(i as int).push(text@[i as int]));
        }
        i = i + 1;
    }
    proof {
        assert(text@.take(n as int) =~= text@);
    }
    let lines = split_chars(&chars, '\n');
    let mut kept: Vec<Vec<char>> = Vec::new();
    let mut li: usize = 0;
    proof {
        assert(lines.deep_view().take(0) =~~= Seq::<Seq<char>>::empty());
        assert(kept.deep_view() =~~= normalized_lines(lines.deep_view().take(0)));
    }
    while li < lines.len()
        invariant
            0 <= li <= lines@.len(),
            lines@.len() == lines.deep_view().len(),
            kept.deep_view() == normalized_lines(lines.deep_view().take(li as int)),
        decreases lines@.len() - li,
    {
        let ghost dv0 = kept.deep_view();
        proof {
            assert(lines@[li as int]@ =~= lines.deep_view()[li as int]);
            assert(lines.deep_view().take(li as int + 1).drop_last() =~~= lines.deep_view().take(
                li as int,
            ));
            assert(lines.deep_view().take(li as int + 1).last() == lines.deep_view()[li as int]);
        }
        if !all_ws_exec(&lines[li]) {
            let nl = normalize_line_exec(&lines[li]);
            kept.push(nl);
            proof {
                assert(kept.deep_view() =~~= dv0.push(nl@));
            }
        }
        li = li + 1;
    }
    proof {
        assert(lines.deep_view().take(lines@.len() as int) =~~= lines.deep_view());
    }
    let joined = join_chars(&kept, '\n');
    chars_to_string(joined)
}

} // verus!

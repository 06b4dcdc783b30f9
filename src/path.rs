//! Paths as sequences of characters: their `/`-separated segments, and decimal digits.
use vstd::prelude::*;
use vstd::std_specs::iter::IteratorSpec;

verus! {

/// The segments of `s[i..]`, given the segment `cur` read so far and the segments `done`
/// before it.
pub open spec fn split_acc(s: Seq<char>, i: int, cur: Seq<char>, done: Seq<Seq<char>>) -> Seq<
    Seq<char>,
>
    decreases s.len() - i,
{
    if i < 0 || i >= s.len() {
        done.push(cur)
    } else if s[i] == '/' {
        split_acc(s, i + 1, Seq::empty(), done.push(cur))
    } else {
        split_acc(s, i + 1, cur.push(s[i]), done)
    }
}

/// The `/`-separated segments of `s`; a path without `/` is one segment.
pub open spec fn segments(s: Seq<char>) -> Seq<Seq<char>> {
    split_acc(s, 0, Seq::empty(), Seq::empty())
}

/// The characters of `s`.
pub fn to_chars(s: &str) -> (r: Vec<char>)
    ensures
        r@ == s@,
{
    let mut r: Vec<char> = Vec::new();
    let mut it = s.chars();
    loop
        invariant
            r@ + it.remaining() == s@,
        ensures
            r@ == s@,
        decreases s@.len() - r@.len(),
    {
        match it.next() {
            Some(c) => {
                r.push(c);
                assert(r@ + it.remaining() =~= s@);
            },
            None => {
                assert(r@ =~= s@);
                break ;
            },
        }
    }
    r
}

/// The segments of `s`.
pub fn split_segments(s: &Vec<char>) -> (r: Vec<Vec<char>>)
    ensures
        r@.map_values(|v: Vec<char>| v@) == segments(s@),
        r@.len() >= 1,
{
    let mut done: Vec<Vec<char>> = Vec::new();
    let mut cur: Vec<char> = Vec::new();
    let mut i: usize = 0;
    assert(done@.map_values(|v: Vec<char>| v@) =~= Seq::<Seq<char>>::empty());
    assert(cur@ =~= Seq::<char>::empty());
    while i < s.len()
        invariant
            i <= s@.len(),
            segments(s@) == split_acc(
                s@,
                i as int,
                cur@,
                done@.map_values(|v: Vec<char>| v@),
            ),
        decreases s.len() - i,
    {
        if s[i] == '/' {
            let ghost d0 = done@;
            let ghost finished = cur@;
            done.push(cur);
            cur = Vec::new();
            assert(done@.map_values(|v: Vec<char>| v@) =~= d0.map_values(|v: Vec<char>| v@).push(
                finished,
            ));
        } else {
            cur.push(s[i]);
        }
        i = i + 1;
    }
    let ghost d0 = done@;
    done.push(cur);
    assert(done@.map_values(|v: Vec<char>| v@) =~= d0.map_values(|v: Vec<char>| v@).push(cur@));
    done
}

/// Whether `c` is a decimal digit.
pub open spec fn is_digit(c: char) -> bool {
    '0' <= c <= '9'
}

/// The value of decimal digit `c`.
pub open spec fn digit_value(c: char) -> int {
    if c == '0' {
        0
    } else if c == '1' {
        1
    } else if c == '2' {
        2
    } else if c == '3' {
        3
    } else if c == '4' {
        4
    } else if c == '5' {
        5
    } else if c == '6' {
        6
    } else if c == '7' {
        7
    } else if c == '8' {
        8
    } else {
        9
    }
}

/// Whether every character of `s` is a decimal digit.
pub open spec fn all_digits(s: Seq<char>) -> bool {
    forall|i: int| 0 <= i < s.len() ==> is_digit(#[trigger] s[i])
}

/// The value of the decimal digits `s`.
pub open spec fn digits_value(s: Seq<char>) -> int
    decreases s.len(),
{
    if s.len() == 0 {
        0
    } else {
        digits_value(s.drop_last()) * 10 + digit_value(s.last())
    }
}

/// The value of the decimal digits `s[start..end]`.
pub fn parse_digits(s: &Vec<char>, start: usize, end: usize) -> (r: u64)
    requires
        start <= end <= s@.len(),
        end - start <= 8,
        all_digits(s@.subrange(start as int, end as int)),
    ensures
        r == digits_value(s@.subrange(start as int, end as int)),
        r < pow10((end - start) as nat),
        r < 100000000,
{
    let mut r: u64 = 0;
    let mut i: usize = start;
    while i < end
        invariant
            start <= i <= end,
            end <= s@.len(),
            end - start <= 8,
            all_digits(s@.subrange(start as int, end as int)),
            r == digits_value(s@.subrange(start as int, i as int)),
            r < pow10((i - start) as nat),
        decreases end - i,
    {
        let c = s[i];
        assert(s@.subrange(start as int, end as int)[i - start] == c);
        let d = digit_of(c);
        assert(s@.subrange(start as int, i + 1) =~= s@.subrange(start as int, i as int).push(c));
        assert(s@.subrange(start as int, i + 1).drop_last() =~= s@.subrange(start as int, i as int));
        assert(pow10((i + 1 - start) as nat) == 10 * pow10((i - start) as nat));
        assert(pow10((i - start) as nat) <= 10000000) by {
            lemma_pow10_mono((i - start) as nat, 7);
            reveal_with_fuel(pow10, 8);
        }
        r = r * 10 + d;
        i = i + 1;
    }
    proof {
        lemma_pow10_mono((end - start) as nat, 8);
        reveal_with_fuel(pow10, 9);
    }
    r
}

/// Ten to the power `n`.
pub open spec fn pow10(n: nat) -> int
    decreases n,
{
    if n == 0 {
        1
    } else {
        10 * pow10((n - 1) as nat)
    }
}

proof fn lemma_pow10_mono(a: nat, b: nat)
    requires
        a <= b,
    ensures
        pow10(a) <= pow10(b),
    decreases b,
{
    if a < b {
        lemma_pow10_mono(a, (b - 1) as nat);
        lemma_pow10_pos((b - 1) as nat);
    }
}

proof fn lemma_pow10_pos(n: nat)
    ensures
        pow10(n) >= 1,
    decreases n,
{
    if n > 0 {
        lemma_pow10_pos((n - 1) as nat);
    }
}

/// The value of the decimal digit `c`.
pub fn digit_of(c: char) -> (r: u64)
    requires
        is_digit(c),
    ensures
        r == digit_value(c),
        r < 10,
{
    if c == '0' {
        0
    } else if c == '1' {
        1
    } else if c == '2' {
        2
    } else if c == '3' {
        3
    } else if c == '4' {
        4
    } else if c == '5' {
        5
    } else if c == '6' {
        6
    } else if c == '7' {
        7
    } else if c == '8' {
        8
    } else {
        9
    }
}

/// Whether `s` holds no `/`.
pub open spec fn no_slash(s: Seq<char>) -> bool {
    forall|k: int| 0 <= k < s.len() ==> #[trigger] s[k] != '/'
}

/// The segments `parts` joined with `/`.
pub open spec fn join_segments(parts: Seq<Seq<char>>) -> Seq<char>
    decreases parts.len(),
{
    if parts.len() <= 1 {
        if parts.len() == 1 {
            parts[0]
        } else {
            Seq::empty()
        }
    } else {
        parts[0] + seq!['/'] + join_segments(parts.drop_first())
    }
}

/// Reading a run without `/` extends the current segment by the run.
proof fn lemma_split_run(s: Seq<char>, i: int, j: int, cur: Seq<char>, done: Seq<Seq<char>>)
    requires
        0 <= i <= j <= s.len(),
        forall|k: int| i <= k < j ==> #[trigger] s[k] != '/',
    ensures
        split_acc(s, i, cur, done) == split_acc(s, j, cur + s.subrange(i, j), done),
    decreases j - i,
{
    if i == j {
        assert(cur + s.subrange(i, j) =~= cur);
    } else {
        lemma_split_run(s, i + 1, j, cur.push(s[i]), done);
        assert(cur.push(s[i]) + s.subrange(i + 1, j) =~= cur + s.subrange(i, j));
    }
}

/// Splitting the rest of `s` from `i`, when it is `parts` joined with `/`, gives `parts`.
proof fn lemma_split_joined(s: Seq<char>, i: int, parts: Seq<Seq<char>>, done: Seq<Seq<char>>)
    requires
        0 <= i <= s.len(),
        parts.len() >= 1,
        forall|p: int| 0 <= p < parts.len() ==> no_slash(#[trigger] parts[p]),
        s.subrange(i, s.len() as int) == join_segments(parts),
    ensures
        split_acc(s, i, Seq::empty(), done) == done + parts,
    decreases parts.len(),
{
    let p0 = parts[0];
    let j = i + p0.len();
    if parts.len() == 1 {
        assert(s.subrange(i, s.len() as int) == p0);
        assert forall|k: int| i <= k < s.len() implies #[trigger] s[k] != '/' by {
            assert(s.subrange(i, s.len() as int)[k - i] == s[k]);
            assert(no_slash(parts[0]));
        }
        lemma_split_run(s, i, s.len() as int, Seq::empty(), done);
        assert(Seq::<char>::empty() + s.subrange(i, s.len() as int) =~= p0);
        assert(done + parts =~= done.push(p0));
    } else {
        let rest = parts.drop_first();
        let tail = s.subrange(i, s.len() as int);
        assert(tail == p0 + seq!['/'] + join_segments(rest));
        assert forall|k: int| i <= k < j implies #[trigger] s[k] != '/' by {
            assert(tail[k - i] == s[k]);
            assert(tail[k - i] == p0[k - i]);
            assert(no_slash(parts[0]));
        }
        lemma_split_run(s, i, j, Seq::empty(), done);
        assert(Seq::<char>::empty() + s.subrange(i, j) =~= p0) by {
            assert forall|k: int| 0 <= k < p0.len() implies s.subrange(i, j)[k] == p0[k] by {
                assert(tail[k] == s[i + k]);
            }
        }
        assert(s[j] == '/') by {
            assert(tail[p0.len() as int] == s[j]);
        }
        assert(s.subrange(j + 1, s.len() as int) =~= join_segments(rest)) by {
            assert forall|k: int| 0 <= k < s.len() - (j + 1) implies s.subrange(j + 1, s.len() as int)[k]
                == join_segments(rest)[k] by {
                assert(tail[p0.len() + 1 + k] == s[j + 1 + k]);
            }
        }
        assert forall|p: int| 0 <= p < rest.len() implies no_slash(#[trigger] rest[p]) by {
            assert(rest[p] == parts[p + 1]);
        }
        lemma_split_joined(s, j + 1, rest, done.push(p0));
        assert(done.push(p0) + rest =~= done + parts);
    }
}

/// The segments of `parts` joined with `/` are `parts`, when no part holds a `/`.
pub proof fn lemma_segments_of_joined(parts: Seq<Seq<char>>)
    requires
        parts.len() >= 1,
        forall|p: int| 0 <= p < parts.len() ==> no_slash(#[trigger] parts[p]),
    ensures
        segments(join_segments(parts)) == parts,
{
    let s = join_segments(parts);
    assert(s.subrange(0, s.len() as int) =~= s);
    lemma_split_joined(s, 0, parts, Seq::empty());
    assert(Seq::<Seq<char>>::empty() + parts =~= parts);
}

} // verus!

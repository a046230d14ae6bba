//! Text helpers: trimming whitespace and splitting names on dots.
use vstd::prelude::*;

verus! {

/// The characters that `char::is_whitespace` accepts (Unicode `White_Space`).
pub open spec fn is_space(c: char) -> bool {
    let u = c as u32;
    (0x9 <= u && u <= 0xd) || u == 0x20 || u == 0x85 || u == 0xa0 || u == 0x1680
        || (0x2000 <= u && u <= 0x200a) || u == 0x2028 || u == 0x2029 || u == 0x202f
        || u == 0x205f || u == 0x3000
}

/// `s` without its leading whitespace.
pub open spec fn trim_start(s: Seq<char>) -> Seq<char>
    decreases s.len(),
{
    if s.len() > 0 && is_space(s[0]) {
        trim_start(s.drop_first())
    } else {
        s
    }
}

/// `s` without its trailing whitespace.
pub open spec fn trim_end(s: Seq<char>) -> Seq<char>
    decreases s.len(),
{
    if s.len() > 0 && is_space(s.last()) {
        trim_end(s.drop_last())
    } else {
        s
    }
}

/// `s` without whitespace at either end.
pub open spec fn trimmed(s: Seq<char>) -> Seq<char> {
    trim_end(trim_start(s))
}

fn space(c: char) -> (r: bool)
    ensures
        r == is_space(c),
{
    let u = c as u32;
    (0x9 <= u && u <= 0xd) || u == 0x20 || u == 0x85 || u == 0xa0 || u == 0x1680 || (0x2000 <= u
        && u <= 0x200a) || u == 0x2028 || u == 0x2029 || u == 0x202f || u == 0x205f || u == 0x3000
}

/// The address text that the lookup service answered, without the whitespace
/// (such as a final newline) around it. No other check is made on it.
pub fn normalize_ip(raw: &str) -> (r: String)
    ensures
        r@ == trimmed(raw@),
{
    let n = raw.unicode_len();
    let mut i: usize = 0;
    assert(raw@.subrange(0, n as int) =~= raw@);
    while i < n && space(raw.get_char(i))
        invariant
            i <= n,
            n == raw@.len(),
            trim_start(raw@) == trim_start(raw@.subrange(i as int, n as int)),
        decreases n - i,
    {
        assert(raw@.subrange(i as int, n as int).drop_first() =~= raw@.subrange(
            i + 1,
            n as int,
        ));
        i = i + 1;
    }
    assert(trim_start(raw@) == raw@.subrange(i as int, n as int));
    let mut j: usize = n;
    while j > i && space(raw.get_char(j - 1))
        invariant
            i <= j <= n,
            n == raw@.len(),
            trim_end(raw@.subrange(i as int, n as int)) == trim_end(
                raw@.subrange(i as int, j as int),
            ),
        decreases j,
    {
        assert(raw@.subrange(i as int, j as int).drop_last() =~= raw@.subrange(
            i as int,
            j - 1,
        ));
        j = j - 1;
    }
    let part = raw.substring_char(i, j);
    String::from_str(part)
}

/// The pieces of `s` between occurrences of `sep`, as `str::split` gives them:
/// never empty, and one more piece than `s` holds separators.
pub open spec fn split_on(s: Seq<char>, sep: char) -> Seq<Seq<char>>
    decreases s.len(),
{
    if s.len() == 0 {
        seq![Seq::empty()]
    } else {
        let rest = split_on(s.drop_first(), sep);
        if s[0] == sep {
            seq![Seq::empty()] + rest
        } else {
            rest.update(0, seq![s[0]] + rest[0])
        }
    }
}

pub proof fn lemma_split_nonempty(s: Seq<char>, sep: char)
    ensures
        split_on(s, sep).len() >= 1,
    decreases s.len(),
{
    if s.len() > 0 {
        lemma_split_nonempty(s.drop_first(), sep);
    }
}

/// The first dot-separated piece of `name`, and how many pieces it has,
/// counted up to three.
pub fn dot_labels(name: &str) -> (r: (usize, String))
    ensures
        r.0 as int == if split_on(name@, '.').len() < 3 {
            split_on(name@, '.').len() as int
        } else {
            3
        },
        r.1@ == split_on(name@, '.')[0],
{
    let n = name.unicode_len();
    let mut i: usize = n;
    let mut count: usize = 1;
    let mut first_end: usize = n;
    assert(name@.subrange(n as int, n as int) =~= Seq::<char>::empty());
    while i > 0
        invariant
            i <= first_end <= n,
            n == name@.len(),
            1 <= count <= 3,
            count as int == if split_on(name@.subrange(i as int, n as int), '.').len() < 3 {
                split_on(name@.subrange(i as int, n as int), '.').len() as int
            } else {
                3
            },
            split_on(name@.subrange(i as int, n as int), '.')[0] == name@.subrange(
                i as int,
                first_end as int,
            ),
        decreases i,
    {
        let c = name.get_char(i - 1);
        let ghost tail = name@.subrange(i - 1, n as int);
        proof {
            assert(tail.drop_first() =~= name@.subrange(i as int, n as int));
            lemma_split_nonempty(name@.subrange(i as int, n as int), '.');
        }
        if c == '.' {
            if count < 3 {
                count = count + 1;
            }
            first_end = i - 1;
            assert(name@.subrange(i - 1, i - 1) =~= Seq::<char>::empty());
        } else {
            assert(seq![c] + name@.subrange(i as int, first_end as int) =~= name@.subrange(
                i - 1,
                first_end as int,
            ));
        }
        i = i - 1;
    }
    assert(name@.subrange(0, n as int) =~= name@);
    let first = String::from_str(name.substring_char(0, first_end));
    (count, first)
}

} // verus!

//! Reading what the toolchain prints about itself: the host target from
//! `rustc --version --verbose`, and the sysroot from `rustc --print sysroot`.
use vstd::prelude::*;

verus! {

/// Whether three bytes encode a whitespace character outside Latin-1:
/// U+1680, U+2000 to U+200A, U+2028, U+2029, U+202F, U+205F or U+3000.
pub open spec fn is_wide_space(a: u8, b: u8, c: u8) -> bool {
    ||| a == 0xe1 && b == 0x9a && c == 0x80
    ||| a == 0xe2 && b == 0x80 && ((0x80 <= c <= 0x8a) || c == 0xa8 || c == 0xa9 || c == 0xaf)
    ||| a == 0xe2 && b == 0x81 && c == 0x9f
    ||| a == 0xe3 && b == 0x80 && c == 0x80
}

/// The length of the UTF-8 encoding of the whitespace character (in the sense
/// of `char::is_whitespace`) that `s` starts with, or 0 where it starts with
/// none: tab to carriage return and space take one byte, U+0085 and U+00A0
/// two, the others three.
pub open spec fn space_prefix(s: Seq<u8>) -> int {
    if s.len() >= 1 && (s[0] == 32 || (9 <= s[0] <= 13)) {
        1
    } else if s.len() >= 2 && s[0] == 0xc2 && (s[1] == 0x85 || s[1] == 0xa0) {
        2
    } else if s.len() >= 3 && is_wide_space(s[0], s[1], s[2]) {
        3
    } else {
        0
    }
}

/// The length of the UTF-8 encoding of the whitespace character that `s` ends
/// with, or 0 where it ends with none.
pub open spec fn space_suffix(s: Seq<u8>) -> int {
    let n = s.len() as int;
    if n >= 1 && (s[n - 1] == 32 || (9 <= s[n - 1] <= 13)) {
        1
    } else if n >= 2 && s[n - 2] == 0xc2 && (s[n - 1] == 0x85 || s[n - 1] == 0xa0) {
        2
    } else if n >= 3 && is_wide_space(s[n - 3], s[n - 2], s[n - 1]) {
        3
    } else {
        0
    }
}

/// How many bytes of whitespace characters `s` starts with.
pub open spec fn leading_space(s: Seq<u8>) -> int
    decreases s.len(),
{
    let n = space_prefix(s);
    if n == 0 {
        0
    } else {
        n + leading_space(s.subrange(n, s.len() as int))
    }
}

/// The length of `s` without the whitespace characters it ends with.
pub open spec fn without_trailing_space(s: Seq<u8>) -> int
    decreases s.len(),
{
    let n = space_suffix(s);
    if n == 0 {
        s.len() as int
    } else {
        without_trailing_space(s.subrange(0, s.len() - n))
    }
}

/// Whether `s[a..b]` is `s` without its leading and trailing whitespace, as
/// `str::trim` takes it off.
pub open spec fn is_trimmed(s: Seq<u8>, a: int, b: int) -> bool {
    &&& a == leading_space(s)
    &&& b == a + without_trailing_space(s.subrange(a, s.len() as int))
}

/// `space_prefix` of `s[i..b]`.
fn space_prefix_at(s: &[u8], i: usize, b: usize) -> (r: usize)
    requires
        i <= b <= s@.len(),
    ensures
        r == space_prefix(s@.subrange(i as int, b as int)),
{
    let n: usize = b - i;
    if n >= 1 && (s[i] == 32 || (9 <= s[i] && s[i] <= 13)) {
        1
    } else if n >= 2 && s[i] == 0xc2 && (s[i + 1] == 0x85 || s[i + 1] == 0xa0) {
        2
    } else if n >= 3 && ((s[i] == 0xe1 && s[i + 1] == 0x9a && s[i + 2] == 0x80) || (s[i] == 0xe2
        && s[i + 1] == 0x80 && ((0x80 <= s[i + 2] && s[i + 2] <= 0x8a) || s[i + 2] == 0xa8 || s[i
        + 2] == 0xa9 || s[i + 2] == 0xaf)) || (s[i] == 0xe2 && s[i + 1] == 0x81 && s[i + 2] == 0x9f)
        || (s[i] == 0xe3 && s[i + 1] == 0x80 && s[i + 2] == 0x80)) {
        3
    } else {
        0
    }
}

/// `space_suffix` of `s[a..j]`.
fn space_suffix_at(s: &[u8], a: usize, j: usize) -> (r: usize)
    requires
        a <= j <= s@.len(),
    ensures
        r == space_suffix(s@.subrange(a as int, j as int)),
{
    let n: usize = j - a;
    if n >= 1 && (s[j - 1] == 32 || (9 <= s[j - 1] && s[j - 1] <= 13)) {
        1
    } else if n >= 2 && s[j - 2] == 0xc2 && (s[j - 1] == 0x85 || s[j - 1] == 0xa0) {
        2
    } else if n >= 3 && ((s[j - 3] == 0xe1 && s[j - 2] == 0x9a && s[j - 1] == 0x80) || (s[j - 3]
        == 0xe2 && s[j - 2] == 0x80 && ((0x80 <= s[j - 1] && s[j - 1] <= 0x8a) || s[j - 1] == 0xa8
        || s[j - 1] == 0xa9 || s[j - 1] == 0xaf)) || (s[j - 3] == 0xe2 && s[j - 2] == 0x81 && s[j
        - 1] == 0x9f) || (s[j - 3] == 0xe3 && s[j - 2] == 0x80 && s[j - 1] == 0x80)) {
        3
    } else {
        0
    }
}

/// Whether a line starts at `p`: at the start of the text or after a newline.
pub open spec fn line_start(s: Seq<u8>, p: int) -> bool {
    p == 0 || (0 < p <= s.len() && s[p - 1] == 10)
}

/// Where the line that starts at `p` ends: at the next newline, or at the end.
pub open spec fn line_end(s: Seq<u8>, p: int, q: int) -> bool {
    &&& p <= q <= s.len()
    &&& forall|k: int| p <= k < q ==> s[k] != 10
    &&& q < s.len() ==> s[q] == 10
}

/// Whether the line at `p` starts with `host:`.
pub open spec fn host_line(s: Seq<u8>, p: int) -> bool {
    &&& line_start(s, p)
    &&& p + 5 <= s.len()
    &&& s.subrange(p, p + 5) == seq![104u8, 111, 115, 116, 58]
}

/// The bounds of `s[a..b]` without leading and trailing whitespace.
fn trim_bounds(s: &[u8], a: usize, b: usize) -> (r: (usize, usize))
    requires
        a <= b <= s@.len(),
    ensures
        a <= r.0 <= r.1 <= b,
        is_trimmed(s@.subrange(a as int, b as int), r.0 - a, r.1 - a),
{
    let ghost whole = s@.subrange(a as int, b as int);
    let mut i: usize = a;
    loop
        invariant
            a <= i <= b,
            b <= s@.len(),
            whole == s@.subrange(a as int, b as int),
            leading_space(whole) == (i - a) + leading_space(s@.subrange(i as int, b as int)),
        ensures
            a <= i <= b,
            leading_space(whole) == i - a,
        decreases b - i,
    {
        let n = space_prefix_at(s, i, b);
        if n == 0 {
            assert(leading_space(s@.subrange(i as int, b as int)) == 0);
            break;
        }
        proof {
            let t = s@.subrange(i as int, b as int);
            assert(t.subrange(n as int, t.len() as int) =~= s@.subrange(i + n, b as int));
        }
        i = i + n;
    }
    let ghost rest = s@.subrange(i as int, b as int);
    assert(whole.subrange(i - a, whole.len() as int) =~= rest);
    let mut j: usize = b;
    loop
        invariant
            i <= j <= b,
            b <= s@.len(),
            rest == s@.subrange(i as int, b as int),
            without_trailing_space(rest) == without_trailing_space(s@.subrange(i as int, j as int)),
        ensures
            i <= j <= b,
            without_trailing_space(rest) == j - i,
        decreases j - i,
    {
        let n = space_suffix_at(s, i, j);
        if n == 0 {
            assert(without_trailing_space(s@.subrange(i as int, j as int)) == j - i);
            break;
        }
        proof {
            let t = s@.subrange(i as int, j as int);
            assert(t.subrange(0, t.len() - n) =~= s@.subrange(i as int, j - n));
        }
        j = j - n;
    }
    (i, j)
}

fn copy_bytes(s: &[u8], a: usize, b: usize) -> (r: Vec<u8>)
    requires
        a <= b <= s@.len(),
    ensures
        r@ == s@.subrange(a as int, b as int),
{
    let mut r: Vec<u8> = Vec::new();
    let mut k: usize = a;
    while k < b
        invariant
            a <= k <= b,
            b <= s@.len(),
            r@ == s@.subrange(a as int, k as int),
        decreases b - k,
    {
        r.push(s[k]);
        k = k + 1;
        assert(r@ =~= s@.subrange(a as int, k as int));
    }
    r
}

/// `s` without leading and trailing whitespace.
pub fn trim(s: &[u8]) -> (r: Vec<u8>)
    ensures
        exists|a: int, b: int| is_trimmed(s@, a, b) && r@ == s@.subrange(a, b),
{
    let (a, b) = trim_bounds(s, 0, s.len());
    assert(s@.subrange(0, s@.len() as int) =~= s@);
    copy_bytes(s, a, b)
}

/// The host target that `rustc --version --verbose` printed: the rest of the
/// first line that starts with `host:`, without surrounding whitespace.
pub fn host_target(output: &[u8]) -> (r: Option<Vec<u8>>)
    ensures
        r is None <==> forall|p: int| 0 <= p <= output@.len() ==> !host_line(output@, p),
        r matches Some(t) ==> exists|p: int, q: int, a: int, b: int|
            {
                &&& host_line(output@, p)
                &&& forall|other: int| 0 <= other < p ==> !host_line(output@, other)
                &&& line_end(output@, p, q)
                &&& #[trigger] is_trimmed(output@.subrange(p + 5, q), a, b)
                &&& t@ == output@.subrange(p + 5, q).subrange(a, b)
            },
{
    let n: usize = output.len();
    let mut p: usize = 0;
    loop
        invariant
            p <= n,
            n == output@.len(),
            line_start(output@, p as int),
            forall|other: int| 0 <= other < p ==> !host_line(output@, other),
        decreases n - p,
    {
        let mut q: usize = p;
        while q < n && output[q] != 10
            invariant
                p <= q <= n,
                n == output@.len(),
                forall|k: int| p <= k < q ==> output@[k] != 10,
            decreases n - q,
        {
            q = q + 1;
        }
        let is_host: bool = n - p >= 5 && output[p] == 104 && output[p + 1] == 111 && output[p + 2]
            == 115 && output[p + 3] == 116 && output[p + 4] == 58;
        proof {
            if p + 5 <= n {
                let pre = output@.subrange(p as int, p + 5);
                if is_host {
                    assert(pre =~= seq![104u8, 111, 115, 116, 58]);
                } else {
                    assert(pre[0] == output@[p as int] && pre[1] == output@[p + 1] && pre[2]
                        == output@[p + 2] && pre[3] == output@[p + 3] && pre[4] == output@[p + 4]);
                }
            }
            assert forall|other: int| p < other <= q implies !host_line(output@, other) by {
                assert(output@[other - 1] != 10 || other - 1 >= q);
            }
        }
        if is_host {
            let (a, b) = trim_bounds(output, p + 5, q);
            let t = copy_bytes(output, a, b);
            proof {
                let line = output@.subrange(p + 5, q as int);
                assert(t@ =~= line.subrange(a - (p + 5), b - (p + 5)));
            }
            assert(host_line(output@, p as int));
            return Some(t);
        }
        assert(!host_line(output@, p as int));
        if q >= n {
            assert forall|other: int| 0 <= other <= output@.len() implies !host_line(output@, other) by {
            }
            return None;
        }
        p = q + 1;
    }
}

} // verus!

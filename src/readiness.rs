//! Reading the listening-socket table that `netstat -tln` prints.
use vstd::prelude::*;

verus! {

/// The decimal digits of `n`, in ASCII, without leading zeros.
pub open spec fn decimal(n: nat) -> Seq<u8>
    decreases n,
{
    if n < 10 {
        seq![(48 + n) as u8]
    } else {
        decimal(n / 10).push((48 + n % 10) as u8)
    }
}

/// What marks `port` as a local address in the table: `:<port> `.
pub open spec fn port_marker(port: u16) -> Seq<u8> {
    seq![58u8] + decimal(port as nat) + seq![32u8]
}

/// The state that marks a listening socket.
pub open spec fn listen_marker() -> Seq<u8> {
    seq![76u8, 73u8, 83u8, 84u8, 69u8, 78u8]
}

/// Whether `pat` occurs in `out` within the positions `lo..hi`.
pub open spec fn occurs_in(out: Seq<u8>, lo: int, hi: int, pat: Seq<u8>) -> bool {
    exists|k: int| lo <= k && k + pat.len() <= hi && #[trigger] out.subrange(k, k + pat.len()) == pat
}

/// Whether the positions `lo..hi` of `out` hold no line break.
pub open spec fn within_line(out: Seq<u8>, lo: int, hi: int) -> bool {
    0 <= lo <= hi <= out.len() && forall|k: int| lo <= k < hi ==> out[k] != 10u8
}

/// Whether some line of `out` holds both the marker of `port` and the
/// listening state.
pub open spec fn shows_listening(out: Seq<u8>, port: u16) -> bool {
    exists|lo: int, hi: int|
        within_line(out, lo, hi) && #[trigger] occurs_in(out, lo, hi, port_marker(port))
            && #[trigger] occurs_in(out, lo, hi, listen_marker())
}

/// Computes `decimal(n)`.
fn decimal_digits(n: u16) -> (r: Vec<u8>)
    ensures
        r@ == decimal(n as nat),
    decreases n,
{
    if n < 10 {
        vec![48u8 + n as u8]
    } else {
        let mut r = decimal_digits(n / 10);
        r.push(48u8 + (n % 10) as u8);
        r
    }
}

/// Computes `port_marker(port)`.
fn port_marker_bytes(port: u16) -> (r: Vec<u8>)
    ensures
        r@ == port_marker(port),
{
    let digits = decimal_digits(port);
    let mut r: Vec<u8> = vec![58u8];
    let mut i: usize = 0;
    while i < digits.len()
        invariant
            i <= digits@.len(),
            r@ == seq![58u8] + digits@.take(i as int),
        decreases digits.len() - i,
    {
        r.push(digits[i]);
        assert(digits@.take(i + 1) =~= digits@.take(i as int).push(digits@[i as int]));
        i = i + 1;
    }
    r.push(32u8);
    assert(digits@.take(digits@.len() as int) =~= digits@);
    assert(r@ =~= port_marker(port));
    r
}

/// Computes `occurs_in(out, lo, hi, pat)`.
fn occurs_between(out: &[u8], lo: usize, hi: usize, pat: &Vec<u8>) -> (r: bool)
    requires
        lo <= hi <= out@.len(),
    ensures
        r == occurs_in(out@, lo as int, hi as int, pat@),
{
    let m = pat.len();
    if m > hi - lo {
        assert forall|k: int| lo <= k && k + pat@.len() <= hi implies #[trigger] out@.subrange(
            k,
            k + pat@.len(),
        ) != pat@ by {}
        return false;
    }
    let mut k: usize = lo;
    while k <= hi - m
        invariant
            lo <= k,
            m <= hi - lo,
            m == pat@.len(),
            hi <= out@.len(),
            forall|j: int| lo <= j < k && j + m <= hi ==> #[trigger] out@.subrange(j, j + m) != pat@,
        decreases hi - k,
    {
        let mut t: usize = 0;
        while t < m && out[k + t] == pat[t]
            invariant
                t <= m,
                m == pat@.len(),
                k + m <= hi <= out@.len(),
                forall|s: int| 0 <= s < t ==> out@[k + s] == pat@[s],
            decreases m - t,
        {
            t = t + 1;
        }
        if t == m {
            assert(out@.subrange(k as int, k + m) =~= pat@);
            return true;
        }
        assert(out@.subrange(k as int, k + m)[t as int] != pat@[t as int]);
        k = k + 1;
    }
    false
}

/// Whether the text that `netstat -tln` printed shows a socket listening on
/// `port`: some line holds `:<port> ` and `LISTEN`.
pub fn netstat_shows_listening(out: &[u8], port: u16) -> (r: bool)
    ensures
        r == shows_listening(out@, port),
{
    let marker = port_marker_bytes(port);
    let listen: Vec<u8> = vec![76u8, 73u8, 83u8, 84u8, 69u8, 78u8];
    assert(listen@ =~= listen_marker());
    let n = out.len();
    let mut s: usize = 0;
    loop
        invariant
            n == out@.len(),
            marker@ == port_marker(port),
            listen@ == listen_marker(),
            s <= n,
            s == 0 || out@[s - 1] == 10u8,
            forall|lo: int, hi: int|
                #![trigger occurs_in(out@, lo, hi, port_marker(port)), occurs_in(out@, lo, hi, listen_marker())]
                lo < s && within_line(out@, lo, hi) ==> !(occurs_in(out@, lo, hi, port_marker(port))
                    && occurs_in(out@, lo, hi, listen_marker())),
        decreases n - s,
    {
        let mut e: usize = s;
        while e < n && out[e] != 10u8
            invariant
                s <= e <= n,
                n == out@.len(),
                forall|k: int| s <= k < e ==> out@[k] != 10u8,
            decreases n - e,
        {
            e = e + 1;
        }
        if occurs_between(out, s, e, &marker) && occurs_between(out, s, e, &listen) {
            assert(within_line(out@, s as int, e as int));
            return true;
        }
        assert forall|lo: int, hi: int|
            lo < e + 1 && within_line(out@, lo, hi) && occurs_in(out@, lo, hi, port_marker(port))
                && occurs_in(out@, lo, hi, listen_marker()) implies lo < s by {
            if lo >= s {
                if hi > e {
                    assert(lo <= e);
                    assert(out@[e as int] == 10u8);
                }
                let k = choose|k: int|
                    lo <= k && k + port_marker(port).len() <= hi && #[trigger] out@.subrange(
                        k,
                        k + port_marker(port).len(),
                    ) == port_marker(port);
                assert(occurs_in(out@, s as int, e as int, port_marker(port)));
                let j = choose|j: int|
                    lo <= j && j + listen_marker().len() <= hi && #[trigger] out@.subrange(
                        j,
                        j + listen_marker().len(),
                    ) == listen_marker();
                assert(occurs_in(out@, s as int, e as int, listen_marker()));
            }
        }
        if e == n {
            return false;
        }
        s = e + 1;
    }
}

} // verus!

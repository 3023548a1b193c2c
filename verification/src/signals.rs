//! Signal numbers: which dispositions a daemon resets.

use vstd::prelude::*;
use crate::fds::{contains_int, range, without};

verus! {

/// `libc::SIGRTMIN()`: the first real-time signal that the C library leaves to
/// programs. It is decided when the program runs, so nothing is claimed of it.
#[verifier::external_body]
fn sigrtmin() -> (r: i32) {
    libc::SIGRTMIN()
}

/// `libc::SIGRTMAX()`: the last real-time signal. It is decided when the program
/// runs, so nothing is claimed of it.
#[verifier::external_body]
fn sigrtmax() -> (r: i32) {
    libc::SIGRTMAX()
}

/// `libc::SIGKILL`, which is 9 on every Unix target of the `libc` crate.
#[verifier::external_body]
fn sigkill() -> (r: i32)
    ensures
        r == 9,
{
    libc::SIGKILL
}

/// `libc::SIGSTOP`. Its number differs from one processor to the next on Linux; it
/// is 17, 19 or 23, and no more is claimed of it.
#[verifier::external_body]
fn sigstop() -> (r: i32)
    ensures
        r == 17 || r == 19 || r == 23,
{
    libc::SIGSTOP
}

/// `libc::SIGPIPE`, which is 13 on every target for which the `libc` crate has
/// `SIGRTMIN()`, and so on every target of this library.
#[verifier::external_body]
fn sigpipe() -> (r: i32)
    ensures
        r == 13,
{
    libc::SIGPIPE
}

/// `libc::SIGINT`, which is 2 on every Unix target of the `libc` crate.
#[verifier::external_body]
fn sigint() -> (r: i32)
    ensures
        r == 2,
{
    libc::SIGINT
}

/// `libc::SIGTERM`, which is 15 on every Unix target of the `libc` crate.
#[verifier::external_body]
fn sigterm() -> (r: i32)
    ensures
        r == 15,
{
    libc::SIGTERM
}

/// The signal numbers of this host that the reset of dispositions goes by.
#[derive(Debug, Clone, Copy, PartialEq, Eq, Structural)]
pub struct SignalNumbers {
    pub kill: i32,
    pub stop: i32,
    pub pipe: i32,
    pub rt_min: i32,
    pub rt_max: i32,
}

impl SignalNumbers {
    /// The numbers of the running host. Which one of its numbers `SIGSTOP` has, and
    /// the bounds of the real-time signals, go by the machine and are not stated.
    pub fn host() -> (r: SignalNumbers)
        ensures
            r.kill == 9,
            r.pipe == 13,
            r.stop == 17 || r.stop == 19 || r.stop == 23,
    {
        SignalNumbers {
            kill: sigkill(),
            stop: sigstop(),
            pipe: sigpipe(),
            rt_min: sigrtmin(),
            rt_max: sigrtmax(),
        }
    }

    /// The signals whose disposition is not touched: two that have none, and
    /// `SIGPIPE`, which a caller may rely on being ignored.
    pub open spec fn untouched(self) -> Seq<i32> {
        seq![self.kill, self.stop, self.pipe]
    }

    /// The standard signals and the real-time signals. What lies between them is
    /// reserved by the C library.
    pub open spec fn all(self) -> Seq<i32> {
        range(1, 32) + range(self.rt_min as int, self.rt_max + 1)
    }

    /// The signals whose disposition is reset, in order.
    pub open spec fn to_reset(self) -> Seq<i32> {
        without(self.all(), self.untouched())
    }
}

fn push_range(out: &mut Vec<i32>, from: i32, last: i32)
    ensures
        final(out)@ == old(out)@ + range(from as int, last + 1),
{
    let mut s: i64 = from as i64;
    let ghost before = out@;
    assert(before + range(from as int, from as int) =~= before);
    while s <= last as i64
        invariant
            from <= s,
            s <= last + 1 || s == from,
            out@ == before + range(from as int, s as int),
            i32::MIN <= from,
        decreases last + 1 - s,
    {
        out.push(s as i32);
        s = s + 1;
        assert(range(from as int, s as int) =~= range(from as int, s - 1).push((s - 1) as i32));
        assert(before + range(from as int, s - 1).push((s - 1) as i32) =~= (before + range(
            from as int,
            s - 1,
        )).push((s - 1) as i32));
    }
    assert(range(from as int, s as int) =~= range(from as int, last + 1));
}

/// The standard signals and the real-time signals, given where the latter start
/// and end.
pub fn signals_between(rt_min: i32, rt_max: i32) -> (r: Vec<i32>)
    ensures
        r@ == range(1, 32) + range(rt_min as int, rt_max + 1),
{
    let mut out: Vec<i32> = Vec::new();
    push_range(&mut out, 1, 31);
    push_range(&mut out, rt_min, rt_max);
    assert(out@ =~= range(1, 32) + range(rt_min as int, rt_max + 1));
    out
}

/// The signals of the running host: those from 1 to 31, then the real-time
/// signals.
pub fn signal_range() -> (r: Vec<i32>)
    ensures
        exists|n: SignalNumbers| n.kill == 9 && n.pipe == 13 && r@ == #[trigger] n.all(),
{
    let n = SignalNumbers::host();
    let r = signals_between(n.rt_min, n.rt_max);
    assert(r@ == n.all());
    r
}

/// The signals whose disposition is reset.
pub fn signals_to_reset(n: SignalNumbers) -> (r: Vec<i32>)
    ensures
        r@ == n.to_reset(),
{
    let all = signals_between(n.rt_min, n.rt_max);
    let mut skip: Vec<i32> = Vec::new();
    skip.push(n.kill);
    skip.push(n.stop);
    skip.push(n.pipe);
    assert(skip@ =~= n.untouched());
    let mut out: Vec<i32> = Vec::new();
    let mut i: usize = 0;
    assert(all@.skip(0) =~= all@);
    assert(out@ + without(all@, skip@) =~= without(all@, skip@));
    while i < all.len()
        invariant
            i <= all@.len(),
            out@ + without(all@.skip(i as int), skip@) == without(all@, skip@),
        decreases all@.len() - i,
    {
        let s: i32 = all[i];
        let ghost rest = all@.skip(i as int);
        assert(rest.skip(1) =~= all@.skip(i + 1));
        if !contains_int(skip.as_slice(), s) {
            let ghost prior = out@;
            out.push(s);
            assert(prior.push(s) + without(all@.skip(i + 1), skip@) =~= prior + (seq![s] + without(
                all@.skip(i + 1),
                skip@,
            )));
        }
        i = i + 1;
    }
    assert(without(all@.skip(i as int), skip@).len() == 0);
    assert(out@ + without(all@.skip(i as int), skip@) =~= out@);
    out
}

/// The signals that usually end a daemon: `SIGINT` and `SIGTERM`.
pub fn term_signals() -> (r: Vec<i32>)
    ensures
        r@ == seq![2i32, 15i32],
{
    let mut out: Vec<i32> = Vec::new();
    out.push(sigint());
    out.push(sigterm());
    assert(out@ =~= seq![2i32, 15i32]);
    out
}

/// `SIGKILL`, `SIGSTOP` and `SIGPIPE` keep their disposition; every other signal
/// of the host is reset.
pub proof fn reset_spares_exactly_the_untouched(n: SignalNumbers, s: i32)
    ensures
        n.to_reset().contains(s) <==> n.all().contains(s) && s != n.kill && s != n.stop && s
            != n.pipe,
{
    crate::fds::lemma_without_members(n.all(), n.untouched(), s);
    assert(n.untouched()[0] == n.kill && n.untouched()[1] == n.stop && n.untouched()[2] == n.pipe);
    if n.untouched().contains(s) {
        let i = choose|i: int| 0 <= i < n.untouched().len() && n.untouched()[i] == s;
        assert(i == 0 || i == 1 || i == 2);
    }
}

/// The signals of a host are those from 1 to 31 and the real-time signals, and no others.
pub proof fn which_signals_there_are(n: SignalNumbers, s: i32)
    ensures
        n.all().contains(s) <==> 1 <= s <= 31 || n.rt_min <= s <= n.rt_max,
        range(1, 32).len() + range(n.rt_min as int, n.rt_max + 1).len() == n.all().len(),
{
    let low = range(1, 32);
    let high = range(n.rt_min as int, n.rt_max + 1);
    if 1 <= s <= 31 {
        assert(n.all()[s - 1] == s);
    }
    if n.rt_min <= s <= n.rt_max {
        assert(high[s - n.rt_min] == s);
        assert(n.all()[low.len() + s - n.rt_min] == s);
    }
    if n.all().contains(s) {
        let i = choose|i: int| 0 <= i < n.all().len() && n.all()[i] == s;
        if i < low.len() {
            assert(n.all()[i] == low[i]);
        } else {
            assert(n.all()[i] == high[i - low.len()]);
        }
    }
}

/// Exactly the signals from 1 to 31 and the real-time signals are reset, apart from
/// `SIGKILL`, `SIGSTOP` and `SIGPIPE`.
pub proof fn which_signals_are_reset(n: SignalNumbers, s: i32)
    ensures
        n.to_reset().contains(s) <==> (1 <= s <= 31 || n.rt_min <= s <= n.rt_max) && s != n.kill && s
            != n.stop && s != n.pipe,
{
    which_signals_there_are(n, s);
    reset_spares_exactly_the_untouched(n, s);
}

} // verus!

//! File descriptors: which ones a daemon closes, and how one is written to.

use vstd::prelude::*;
use crate::text::{parse_i32, read_i32, texts};

verus! {

/// The integers from `a` up to, not including, `b`.
pub open spec fn range(a: int, b: int) -> Seq<i32> {
    Seq::new(
        (if a < b {
            b - a
        } else {
            0
        }) as nat,
        |i: int| (a + i) as i32,
    )
}

/// What is left of `s` without the members of `skip`.
pub open spec fn without(s: Seq<i32>, skip: Seq<i32>) -> Seq<i32>
    decreases s.len(),
{
    if s.len() == 0 {
        s
    } else if skip.contains(s[0]) {
        without(s.skip(1), skip)
    } else {
        seq![s[0]] + without(s.skip(1), skip)
    }
}

/// Whether `x` is a member of `v`.
pub fn contains_int(v: &[i32], x: i32) -> (r: bool)
    ensures
        r == v@.contains(x),
{
    let mut i: usize = 0;
    while i < v.len()
        invariant
            i <= v@.len(),
            forall|j: int| 0 <= j < i ==> v@[j] != x,
        decreases v@.len() - i,
    {
        if v[i] == x {
            assert(v@[i as int] == x);
            return true;
        }
        i = i + 1;
    }
    false
}

/// Turns a limit on open files into the end of the range of descriptors. No
/// descriptor is beyond `i32::MAX`, so larger limits count as that.
pub fn clamp_max_fd(rlim_cur: u64) -> (r: i32)
    ensures
        r == (if rlim_cur <= i32::MAX {
            rlim_cur as int
        } else {
            i32::MAX as int
        }),
{
    if rlim_cur <= 0x7fff_ffff {
        rlim_cur as i32
    } else {
        i32::MAX
    }
}

/// The descriptors to close where the open ones cannot be listed, one after the
/// other.
#[derive(Debug)]
pub struct FdsToClose {
    cursor: i32,
    max_fd: i32,
    skip: Vec<i32>,
}

impl View for FdsToClose {
    type V = Seq<i32>;

    closed spec fn view(&self) -> Seq<i32> {
        without(range(self.cursor as int, self.max_fd as int), self.skip@)
    }
}

/// A copy of `v`.
pub fn copy_ints(v: &[i32]) -> (r: Vec<i32>)
    ensures
        r@ == v@,
{
    let mut out: Vec<i32> = Vec::new();
    let mut i: usize = 0;
    while i < v.len()
        invariant
            i <= v@.len(),
            out@ == v@.take(i as int),
        decreases v@.len() - i,
    {
        out.push(v[i]);
        i = i + 1;
        assert(v@.take(i as int) =~= v@.take(i - 1).push(v@[i - 1]));
    }
    assert(v@.take(i as int) =~= v@);
    out
}

/// The descriptors from 3 up to the limit, without those to be kept.
pub fn fds_to_close(max_fd: i32, skip_fds: &[i32]) -> (r: FdsToClose)
    ensures
        r@ == without(range(3, max_fd as int), skip_fds@),
{
    FdsToClose { cursor: 3, max_fd, skip: copy_ints(skip_fds) }
}

impl FdsToClose {
    /// The next descriptor.
    pub fn next(&mut self) -> (r: Option<i32>)
        ensures
            match r {
                Some(fd) => old(self)@ == seq![fd] + final(self)@,
                None => old(self)@.len() == 0 && final(self)@.len() == 0,
            },
    {
        while self.cursor < self.max_fd
            invariant
                self@ == old(self)@,
            decreases self.max_fd - self.cursor,
        {
            let fd: i32 = self.cursor;
            let ghost all = range(fd as int, self.max_fd as int);
            assert(all.skip(1) =~= range(fd + 1, self.max_fd as int));
            assert(all[0] == fd);
            let kept = contains_int(self.skip.as_slice(), fd);
            self.cursor = fd + 1;
            if !kept {
                return Some(fd);
            }
        }
        None
    }

    /// All the descriptors that are left.
    pub fn collect(self) -> (r: Vec<i32>)
        ensures
            r@ == self@,
    {
        let mut rest = self;
        let mut out: Vec<i32> = Vec::new();
        assert(out@ + rest@ =~= self@);
        loop
            invariant
                out@ + rest@ == self@,
            ensures
                out@ == self@,
            decreases rest@.len(),
        {
            let ghost before = rest@;
            match rest.next() {
                Some(fd) => {
                    let ghost prior = out@;
                    out.push(fd);
                    assert(prior.push(fd) + rest@ =~= prior + (seq![fd] + rest@));
                },
                None => {
                    assert(out@ + rest@ =~= out@);
                    break;
                },
            }
        }
        out
    }
}

/// The descriptors named by a listing of the process's descriptors. Names that
/// are no number are passed over.
pub open spec fn listed_fds(names: Seq<Seq<char>>) -> Seq<i32>
    decreases names.len(),
{
    if names.len() == 0 {
        Seq::empty()
    } else {
        match read_i32(names[0]) {
            Some(fd) => seq![fd] + listed_fds(names.skip(1)),
            None => listed_fds(names.skip(1)),
        }
    }
}

/// The descriptors named by a listing.
pub fn list_open_fds(names: &Vec<String>) -> (r: Vec<i32>)
    ensures
        r@ == listed_fds(texts(names@)),
{
    let mut out: Vec<i32> = Vec::new();
    let mut i: usize = 0;
    let ghost all = texts(names@);
    assert(all.skip(0) =~= all);
    assert(out@ + listed_fds(all) =~= listed_fds(all));
    while i < names.len()
        invariant
            i <= names@.len(),
            all == texts(names@),
            out@ + listed_fds(all.skip(i as int)) == listed_fds(all),
        decreases names@.len() - i,
    {
        let ghost rest = all.skip(i as int);
        assert(rest[0] == names@[i as int]@);
        assert(rest.skip(1) =~= all.skip(i + 1));
        match parse_i32(names[i].as_str()) {
            Some(fd) => {
                let ghost prior = out@;
                out.push(fd);
                assert(prior.push(fd) + listed_fds(all.skip(i + 1)) =~= prior + (seq![fd]
                    + listed_fds(all.skip(i + 1))));
            },
            None => {},
        }
        i = i + 1;
    }
    assert(listed_fds(all.skip(i as int)) =~= Seq::<i32>::empty());
    assert(out@ + listed_fds(all.skip(i as int)) =~= out@);
    out
}

/// Of the open descriptors those to close: none of the standard streams and none
/// of those to be kept.
pub open spec fn closable(fds: Seq<i32>, skip: Seq<i32>) -> Seq<i32>
    decreases fds.len(),
{
    if fds.len() == 0 {
        fds
    } else if fds[0] < 3 || skip.contains(fds[0]) {
        closable(fds.skip(1), skip)
    } else {
        seq![fds[0]] + closable(fds.skip(1), skip)
    }
}

/// Of the open descriptors those to close.
pub fn close_inherited_fds(open_fds: &Vec<i32>, skip_fds: &[i32]) -> (r: Vec<i32>)
    ensures
        r@ == closable(open_fds@, skip_fds@),
{
    let mut out: Vec<i32> = Vec::new();
    let mut i: usize = 0;
    let ghost all = open_fds@;
    assert(all.skip(0) =~= all);
    assert(out@ + closable(all, skip_fds@) =~= closable(all, skip_fds@));
    while i < open_fds.len()
        invariant
            i <= open_fds@.len(),
            all == open_fds@,
            out@ + closable(all.skip(i as int), skip_fds@) == closable(all, skip_fds@),
        decreases open_fds@.len() - i,
    {
        let fd: i32 = open_fds[i];
        let ghost rest = all.skip(i as int);
        assert(rest.skip(1) =~= all.skip(i + 1));
        if fd >= 3 && !contains_int(skip_fds, fd) {
            let ghost prior = out@;
            out.push(fd);
            assert(prior.push(fd) + closable(all.skip(i + 1), skip_fds@) =~= prior + (seq![fd]
                + closable(all.skip(i + 1), skip_fds@)));
        }
        i = i + 1;
    }
    assert(closable(all.skip(i as int), skip_fds@).len() == 0);
    assert(out@ + closable(all.skip(i as int), skip_fds@) =~= out@);
    out
}

/// The members that are left are those that are not to be skipped.
pub proof fn lemma_without_members(s: Seq<i32>, skip: Seq<i32>, x: i32)
    ensures
        without(s, skip).contains(x) <==> s.contains(x) && !skip.contains(x),
    decreases s.len(),
{
    if s.len() > 0 {
        let rest = s.skip(1);
        lemma_without_members(rest, skip, x);
        assert(s =~= seq![s[0]] + rest);
        if without(s, skip).contains(x) && !skip.contains(s[0]) {
            let i = choose|i: int| 0 <= i < without(s, skip).len() && without(s, skip)[i] == x;
            if i > 0 {
                assert(without(rest, skip)[i - 1] == x);
            }
        }
        if s.contains(x) {
            let i = choose|i: int| 0 <= i < s.len() && s[i] == x;
            if i > 0 {
                assert(rest[i - 1] == x);
            }
        }
        if rest.contains(x) {
            let i = choose|i: int| 0 <= i < rest.len() && rest[i] == x;
            assert(s[i + 1] == x);
        }
        if !skip.contains(s[0]) {
            assert(without(s, skip)[0] == s[0]);
            if without(rest, skip).contains(x) {
                let i = choose|i: int|
                    0 <= i < without(rest, skip).len() && without(rest, skip)[i] == x;
                assert(without(s, skip)[i + 1] == x);
            }
        }
        if s[0] == x {
            assert(s[0] == x);
        }
    }
}

/// Where the open descriptors cannot be listed, exactly those from 3 up to the
/// limit are closed, apart from the ones to be kept.
pub proof fn range_closes_all_but_kept(max_fd: int, skip: Seq<i32>, fd: i32)
    requires
        max_fd <= i32::MAX,
    ensures
        without(range(3, max_fd), skip).contains(fd) <==> 3 <= fd < max_fd && !skip.contains(fd),
{
    lemma_without_members(range(3, max_fd), skip, fd);
    if 3 <= fd < max_fd {
        assert(range(3, max_fd)[fd - 3] == fd);
    }
}

/// Of the listed descriptors exactly those from 3 on are closed, apart from the
/// ones to be kept.
pub proof fn listing_closes_all_but_kept(fds: Seq<i32>, skip: Seq<i32>, fd: i32)
    ensures
        closable(fds, skip).contains(fd) <==> fds.contains(fd) && fd >= 3 && !skip.contains(fd),
    decreases fds.len(),
{
    if fds.len() > 0 {
        let rest = fds.skip(1);
        let out = closable(fds, skip);
        let tail = closable(rest, skip);
        listing_closes_all_but_kept(rest, skip, fd);
        assert(fds =~= seq![fds[0]] + rest);
        if fds.contains(fd) {
            let i = choose|i: int| 0 <= i < fds.len() && fds[i] == fd;
            if i > 0 {
                assert(rest[i - 1] == fd);
            }
        }
        if rest.contains(fd) {
            let i = choose|i: int| 0 <= i < rest.len() && rest[i] == fd;
            assert(fds[i + 1] == fd);
        }
        if !(fds[0] < 3 || skip.contains(fds[0])) {
            assert(out[0] == fds[0]);
            if tail.contains(fd) {
                let i = choose|i: int| 0 <= i < tail.len() && tail[i] == fd;
                assert(out[i + 1] == fd);
            }
            if out.contains(fd) {
                let i = choose|i: int| 0 <= i < out.len() && out[i] == fd;
                if i > 0 {
                    assert(tail[i - 1] == fd);
                }
            }
        }
    }
}

// ---------------------------------------------------------------------------
// Writing
// ---------------------------------------------------------------------------

/// How far writing a buffer has come.
#[derive(Debug, Clone, Copy, PartialEq, Eq, Structural)]
pub enum WriteProgress {
    /// This many bytes are written, and there are more.
    More(usize),
    /// All bytes are written.
    Complete,
    /// Nothing was written though there was something to write: an I/O error.
    Stalled,
}

/// Goes on after `n` more bytes of `len` were written, with `written` before.
pub fn write_all_fd(len: usize, written: usize, n: usize) -> (r: WriteProgress)
    ensures
        written >= len ==> r is Complete,
        written < len ==> r == (if n == 0 {
            WriteProgress::Stalled
        } else if written + n >= len {
            WriteProgress::Complete
        } else {
            WriteProgress::More((written + n) as usize)
        }),
{
    if written >= len {
        WriteProgress::Complete
    } else if n == 0 {
        WriteProgress::Stalled
    } else if n >= len - written {
        WriteProgress::Complete
    } else {
        WriteProgress::More(written + n)
    }
}

/// The descriptors of a listing are exactly those that one of its names spells.
pub proof fn a_listing_names_the_descriptors(names: Seq<Seq<char>>, fd: i32)
    ensures
        listed_fds(names).contains(fd) <==> exists|i: int|
            0 <= i < names.len() && read_i32(#[trigger] names[i]) == Some(fd),
    decreases names.len(),
{
    if names.len() > 0 {
        let rest = names.skip(1);
        let out = listed_fds(names);
        let tail = listed_fds(rest);
        a_listing_names_the_descriptors(rest, fd);
        let more: int = if read_i32(names[0]) is Some {
            1
        } else {
            0
        };
        if out.contains(fd) {
            let k = choose|k: int| 0 <= k < out.len() && out[k] == fd;
            if k >= more {
                assert(tail[k - more] == fd);
                let i = choose|i: int| 0 <= i < rest.len() && read_i32(#[trigger] rest[i]) == Some(fd);
                assert(names[i + 1] == rest[i]);
            } else {
                assert(read_i32(names[0]) == Some(fd));
            }
        }
        if exists|i: int| 0 <= i < names.len() && read_i32(#[trigger] names[i]) == Some(fd) {
            let i = choose|i: int| 0 <= i < names.len() && read_i32(#[trigger] names[i]) == Some(fd);
            if i == 0 {
                assert(out[0] == fd);
            } else {
                assert(rest[i - 1] == names[i]);
                let k = choose|k: int| 0 <= k < tail.len() && tail[k] == fd;
                assert(out[k + more] == fd);
            }
        }
    }
}

/// A range holds the integers from its start up to, not including, its end, in order.
pub proof fn a_range_goes_from_start_to_end(a: int, b: int, x: i32, i: int)
    requires
        i32::MIN <= a,
        b <= i32::MAX + 1,
    ensures
        range(a, b).contains(x) <==> a <= x < b,
        a <= b ==> range(a, b).len() == b - a,
        0 <= i < range(a, b).len() ==> range(a, b)[i] == a + i,
{
    if a <= x < b {
        assert(range(a, b)[x - a] == x);
    }
}

} // verus!

//! Unix paths as byte strings: absoluteness, parents, extensions, sameness.

use vstd::prelude::*;
use vstd::utf8::*;

verus! {

/// What `String::from_utf8_lossy` makes of bytes that are not valid UTF-8.
pub uninterp spec fn lossy_replacement(bytes: Seq<u8>) -> Seq<char>;

/// The text that `bytes` spell: what valid UTF-8 encodes, and for other bytes
/// what is left with the invalid sequences replaced.
pub open spec fn utf8_lossy(bytes: Seq<u8>) -> Seq<char> {
    if valid_utf8(bytes) {
        decode_utf8(bytes)
    } else {
        lossy_replacement(bytes)
    }
}

/// Decodes `bytes` with `String::from_utf8_lossy`: valid UTF-8 comes out as it
/// is, anything else as a function of the bytes.
#[verifier::external_body]
pub(crate) fn decode_lossy(bytes: &[u8]) -> (r: String)
    ensures
        valid_utf8(bytes@) ==> r@ == decode_utf8(bytes@),
        !valid_utf8(bytes@) ==> r@ == lossy_replacement(bytes@),
{
    String::from_utf8_lossy(bytes).into_owned()
}

pub const SLASH: u8 = 47;

pub const DOT: u8 = 46;

/// A path in the form the kernel takes it: any bytes, with `/` between the
/// components.
#[derive(Debug, PartialEq, Eq, Hash)]
pub struct UnixPath {
    bytes: Vec<u8>,
}

impl View for UnixPath {
    type V = Seq<u8>;

    closed spec fn view(&self) -> Seq<u8> {
        self.bytes@
    }
}

/// A copy of `bytes[from..to]`.
pub fn copy_bytes(bytes: &[u8], from: usize, to: usize) -> (r: Vec<u8>)
    requires
        from <= to <= bytes@.len(),
    ensures
        r@ == bytes@.subrange(from as int, to as int),
{
    let mut out: Vec<u8> = Vec::new();
    let mut i: usize = from;
    while i < to
        invariant
            from <= i <= to <= bytes@.len(),
            out@ == bytes@.subrange(from as int, i as int),
        decreases to - i,
    {
        out.push(bytes[i]);
        i = i + 1;
        assert(bytes@.subrange(from as int, i as int) =~= bytes@.subrange(from as int, i - 1).push(
            bytes@[i - 1],
        ));
    }
    out
}

/// A copy of `bytes`.
pub fn clone_bytes(bytes: &[u8]) -> (r: Vec<u8>)
    ensures
        r@ == bytes@,
{
    copy_bytes(bytes, 0, bytes.len())
}

/// Whether two byte strings are the same.
pub fn bytes_equal(a: &[u8], b: &[u8]) -> (r: bool)
    ensures
        r == (a@ == b@),
{
    if a.len() != b.len() {
        return false;
    }
    let mut i: usize = 0;
    while i < a.len()
        invariant
            i <= a@.len(),
            a@.len() == b@.len(),
            forall|j: int| 0 <= j < i ==> a@[j] == b@[j],
        decreases a@.len() - i,
    {
        if a[i] != b[i] {
            assert(a@[i as int] != b@[i as int]);
            return false;
        }
        i = i + 1;
    }
    assert(a@ =~= b@);
    true
}

/// Whether the path starts at the root.
pub open spec fn absolute(p: Seq<u8>) -> bool {
    p.len() > 0 && p[0] == SLASH
}

/// The path without trailing separators and trailing `.` components. The root
/// stays `/`.
pub open spec fn trimmed(p: Seq<u8>) -> Seq<u8>
    decreases p.len(),
{
    if p.len() > 1 && (p.last() == SLASH || p.last() == DOT && p[p.len() - 2] == SLASH) {
        trimmed(p.drop_last())
    } else {
        p
    }
}

/// Where the last component of a trimmed path starts.
pub open spec fn name_start(p: Seq<u8>) -> nat
    decreases p.len(),
{
    if p.len() == 0 || p.last() == SLASH {
        p.len()
    } else {
        name_start(p.drop_last())
    }
}

/// The path without its final component. The root and the empty path have none.
pub open spec fn parent_path(p: Seq<u8>) -> Option<Seq<u8>> {
    let t = trimmed(p);
    if t.len() == 0 || t == seq![SLASH] {
        None
    } else {
        Some(trimmed(t.take(name_start(t) as int)))
    }
}

/// The final component, unless it is missing or one of `.` and `..`.
pub open spec fn file_name(p: Seq<u8>) -> Option<Seq<u8>> {
    let t = trimmed(p);
    let name = t.skip(name_start(t) as int);
    if name.len() == 0 || name == seq![DOT] || name == seq![DOT, DOT] {
        None
    } else {
        Some(name)
    }
}

/// Where the extension's dot stands in a file name: the last dot, unless the
/// name starts with it.
pub open spec fn extension_dot(name: Seq<u8>) -> Option<nat>
    decreases name.len(),
{
    if name.len() <= 1 {
        None
    } else if name.last() == DOT {
        Some((name.len() - 1) as nat)
    } else {
        extension_dot(name.drop_last())
    }
}

/// The part of the file name behind its extension's dot.
pub open spec fn extension(p: Seq<u8>) -> Option<Seq<u8>> {
    match file_name(p) {
        None => None,
        Some(name) => match extension_dot(name) {
            None => None,
            Some(dot) => Some(name.skip(dot as int + 1)),
        },
    }
}

/// The path with the extension of its file name replaced by `ext`.
pub open spec fn replace_extension(p: Seq<u8>, ext: Seq<u8>) -> Seq<u8>
    recommends
        extension(p) is Some,
{
    let t = trimmed(p);
    let dot = extension_dot(t.skip(name_start(t) as int));
    t.take((name_start(t) + dot->0) as int) + seq![DOT] + ext
}

proof fn lemma_extension_dot_bound(name: Seq<u8>)
    ensures
        extension_dot(name) matches Some(d) ==> 1 <= d < name.len(),
    decreases name.len(),
{
    if name.len() > 1 && name.last() != DOT {
        lemma_extension_dot_bound(name.drop_last());
    }
}

fn trimmed_len(bytes: &[u8], len: usize) -> (r: usize)
    requires
        len <= bytes@.len(),
    ensures
        r <= len,
        bytes@.take(r as int) == trimmed(bytes@.take(len as int)),
{
    let mut n: usize = len;
    while n > 1 && (bytes[n - 1] == SLASH || (bytes[n - 1] == DOT && bytes[n - 2] == SLASH))
        invariant
            n <= len <= bytes@.len(),
            trimmed(bytes@.take(n as int)) == trimmed(bytes@.take(len as int)),
        decreases n,
    {
        assert(bytes@.take(n as int).drop_last() =~= bytes@.take(n - 1));
        n = n - 1;
    }
    n
}

fn name_start_of(bytes: &[u8], len: usize) -> (r: usize)
    requires
        len <= bytes@.len(),
    ensures
        r <= len,
        r == name_start(bytes@.take(len as int)),
{
    let mut n: usize = len;
    while n > 0 && bytes[n - 1] != SLASH
        invariant
            n <= len <= bytes@.len(),
            name_start(bytes@.take(n as int)) == name_start(bytes@.take(len as int)),
        decreases n,
    {
        assert(bytes@.take(n as int).drop_last() =~= bytes@.take(n - 1));
        n = n - 1;
    }
    n
}

/// The end of the stem in `bytes[start..len]`, a file name.
fn extension_dot_of(bytes: &[u8], start: usize, len: usize) -> (r: Option<usize>)
    requires
        start <= len <= bytes@.len(),
    ensures
        match r {
            Some(d) => start < d < len && extension_dot(bytes@.subrange(start as int, len as int))
                == Some((d - start) as nat),
            None => extension_dot(bytes@.subrange(start as int, len as int)) is None,
        },
{
    let mut n: usize = len;
    while n - start > 1
        invariant
            start <= n <= len <= bytes@.len(),
            extension_dot(bytes@.subrange(start as int, n as int)) == extension_dot(
                bytes@.subrange(start as int, len as int),
            ),
        decreases n,
    {
        if bytes[n - 1] == DOT {
            return Some(n - 1);
        }
        assert(bytes@.subrange(start as int, n as int).drop_last() =~= bytes@.subrange(
            start as int,
            n - 1,
        ));
        n = n - 1;
    }
    None
}

impl Clone for UnixPath {
    fn clone(&self) -> (r: Self)
        ensures
            r@ == self@,
    {
        UnixPath { bytes: clone_bytes(self.bytes.as_slice()) }
    }
}

impl UnixPath {
    /// The path spelled by `s`.
    pub fn new(s: &str) -> (r: UnixPath)
        ensures
            r@ == encode_utf8(s@),
    {
        UnixPath { bytes: clone_bytes(s.as_bytes()) }
    }

    /// The path made of `bytes`.
    pub fn from_bytes(bytes: Vec<u8>) -> (r: UnixPath)
        ensures
            r@ == bytes@,
    {
        UnixPath { bytes }
    }

    /// The bytes of the path.
    pub fn as_bytes(&self) -> (r: &[u8])
        ensures
            r@ == self@,
    {
        self.bytes.as_slice()
    }

    /// Whether the path starts at the root.
    pub fn is_absolute(&self) -> (r: bool)
        ensures
            r == absolute(self@),
    {
        self.bytes.len() > 0 && self.bytes[0] == SLASH
    }

    /// Whether the path holds a NUL byte, which no system call accepts.
    pub fn has_nul(&self) -> (r: bool)
        ensures
            r == self@.contains(0u8),
    {
        let mut i: usize = 0;
        while i < self.bytes.len()
            invariant
                i <= self.bytes@.len(),
                forall|j: int| 0 <= j < i ==> self.bytes@[j] != 0,
            decreases self.bytes@.len() - i,
        {
            if self.bytes[i] == 0 {
                assert(self@[i as int] == 0u8);
                return true;
            }
            i = i + 1;
        }
        false
    }

    /// Whether two paths are spelled alike.
    pub fn same_bytes(&self, other: &UnixPath) -> (r: bool)
        ensures
            r == (self@ == other@),
    {
        bytes_equal(self.bytes.as_slice(), other.bytes.as_slice())
    }

    /// The path in words, with what is not UTF-8 replaced.
    pub fn display(&self) -> (r: String)
        ensures
            r@ == utf8_lossy(self@),
    {
        decode_lossy(self.bytes.as_slice())
    }

    /// The path without its final component.
    pub fn parent(&self) -> (r: Option<UnixPath>)
        ensures
            match r {
                Some(q) => parent_path(self@) == Some(q@),
                None => parent_path(self@) is None,
            },
    {
        let all = self.bytes.as_slice();
        let len = trimmed_len(all, all.len());
        assert(all@.take(all@.len() as int) =~= all@);
        if len == 0 || (len == 1 && all[0] == SLASH) {
            assert(len == 1 ==> all@.take(1) =~= seq![SLASH]);
            return None;
        }
        assert(all@.take(len as int) != seq![SLASH]) by {
            assert(all@.take(len as int)[0] == all@[0]);
            assert(seq![SLASH].len() == 1 && seq![SLASH][0] == SLASH);
        }
        let start = name_start_of(all, len);
        let keep = trimmed_len(all, start);
        assert(all@.take(len as int).take(start as int) =~= all@.take(start as int));
        assert(all@.subrange(0, keep as int) =~= all@.take(keep as int));
        Some(UnixPath { bytes: copy_bytes(all, 0, keep) })
    }

    /// The path with the extension `from` replaced by `to`; `None` if the file
    /// name has another extension or none.
    pub fn swap_extension(&self, from: &str, to: &str) -> (r: Option<UnixPath>)
        ensures
            match r {
                Some(q) => extension(self@) == Some(encode_utf8(from@)) && q@ == replace_extension(
                    self@,
                    encode_utf8(to@),
                ),
                None => extension(self@) != Some(encode_utf8(from@)),
            },
    {
        let all = self.bytes.as_slice();
        let len = trimmed_len(all, all.len());
        assert(all@.take(all@.len() as int) =~= all@);
        let start = name_start_of(all, len);
        let ghost name = trimmed(self@).skip(name_start(trimmed(self@)) as int);
        assert(name =~= all@.subrange(start as int, len as int));
        if len - start == 2 && all[start] == DOT && all[start + 1] == DOT {
            assert(name =~= seq![DOT, DOT]);
            return None;
        }
        assert(name != seq![DOT, DOT]) by {
            if name == seq![DOT, DOT] {
                assert(name.len() == 2);
                assert(name[0] == all@[start as int] && name[1] == all@[start + 1]);
            }
        }
        proof {
            lemma_extension_dot_bound(name);
        }
        match extension_dot_of(all, start, len) {
            None => None,
            Some(dot) => {
                assert(name.len() >= 2);
                let ext = copy_bytes(all, dot + 1, len);
                assert(name.skip((dot - start) as int + 1) =~= ext@);
                if bytes_equal(ext.as_slice(), from.as_bytes()) {
                    let mut out = copy_bytes(all, 0, dot);
                    out.push(DOT);
                    let mut new_ext = clone_bytes(to.as_bytes());
                    out.append(&mut new_ext);
                    assert(all@.take(len as int).take(dot as int) =~= all@.subrange(0, dot as int));
                    assert(out@ =~= replace_extension(self@, encode_utf8(to@)));
                    Some(UnixPath { bytes: out })
                } else {
                    None
                }
            },
        }
    }
}

/// Whether two paths lead to the same file, as far as can be told: by their
/// canonical forms where both have one, else by their spelling.
pub open spec fn same_file(
    a: Seq<u8>,
    a_canonical: Option<Seq<u8>>,
    b: Seq<u8>,
    b_canonical: Option<Seq<u8>>,
) -> bool {
    match (a_canonical, b_canonical) {
        (Some(x), Some(y)) => x == y,
        _ => a == b,
    }
}

/// The bytes of an optional path.
pub open spec fn opt_bytes(p: Option<UnixPath>) -> Option<Seq<u8>> {
    match p {
        Some(q) => Some(q@),
        None => None,
    }
}

/// The bytes of a sequence of paths.
pub open spec fn paths_view(v: Seq<UnixPath>) -> Seq<Seq<u8>> {
    Seq::new(v.len(), |i: int| v[i]@)
}

/// Decides whether two paths lead to the same file, given what canonicalizing
/// each of them brought.
pub fn paths_same(
    a: &UnixPath,
    a_canonical: &Option<UnixPath>,
    b: &UnixPath,
    b_canonical: &Option<UnixPath>,
) -> (r: bool)
    ensures
        r == same_file(a@, opt_bytes(*a_canonical), b@, opt_bytes(*b_canonical)),
{
    match (a_canonical, b_canonical) {
        (Some(x), Some(y)) => x.same_bytes(y),
        _ => a.same_bytes(b),
    }
}

/// A copy of an optional path.
pub fn clone_opt(p: &Option<UnixPath>) -> (r: Option<UnixPath>)
    ensures
        opt_bytes(r) == opt_bytes(*p),
{
    match p {
        Some(q) => Some(q.clone()),
        None => None,
    }
}

/// What can be given where a path is asked for.
pub trait IntoPath: Sized {
    /// The bytes of the path.
    spec fn path_bytes(self) -> Seq<u8>;

    /// The path itself.
    fn into_path(self) -> (r: UnixPath)
        ensures
            r@ == self.path_bytes(),
    ;
}

impl IntoPath for UnixPath {
    open spec fn path_bytes(self) -> Seq<u8> {
        self@
    }

    fn into_path(self) -> (r: UnixPath) {
        self
    }
}

impl IntoPath for &UnixPath {
    open spec fn path_bytes(self) -> Seq<u8> {
        self@
    }

    fn into_path(self) -> (r: UnixPath) {
        self.clone()
    }
}

impl IntoPath for &str {
    open spec fn path_bytes(self) -> Seq<u8> {
        encode_utf8(self@)
    }

    fn into_path(self) -> (r: UnixPath) {
        UnixPath::new(self)
    }
}

impl IntoPath for String {
    open spec fn path_bytes(self) -> Seq<u8> {
        encode_utf8(self@)
    }

    fn into_path(self) -> (r: UnixPath) {
        UnixPath::new(self.as_str())
    }
}

/// The encoding of a text spells that text.
pub proof fn utf8_lossy_of_encoding(s: Seq<char>)
    ensures
        utf8_lossy(encode_utf8(s)) == s,
{
    encode_utf8_valid_utf8(s);
    encode_utf8_decode_utf8(s);
}

} // verus!

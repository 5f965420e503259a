//! Paths and the modes in which files are opened.
use vstd::prelude::*;
use vstd::string::{StringExecFns, StrSliceExecFns};
use crate::error::ErrorNum;
use crate::text::str_eq;

verus! {

/// How a file is opened: bits for reading, writing, creating, executing,
/// opening by the kernel itself, and not following links.
#[derive(Clone, Copy, PartialEq, Eq, Structural, Debug)]
pub struct OpenMode {
    pub bits: usize,
}

impl OpenMode {
    /// The bits of the single modes.
    pub const READ: usize = 1;
    pub const WRITE: usize = 2;
    pub const CREATE: usize = 4;
    pub const EXEC: usize = 8;
    pub const SYS: usize = 16;
    pub const NO_FOLLOW: usize = 32;

    /// The mode of the defined bits among `bits`.
    pub fn from_bits_truncate(bits: usize) -> (r: Self)
        ensures
            r.bits == bits & 63,
    {
        OpenMode { bits: bits & 63 }
    }

    /// Whether every bit of `flag` is set.
    pub fn contains(&self, flag: usize) -> (r: bool)
        ensures
            r == (self.bits & flag == flag),
    {
        self.bits & flag == flag
    }
}

/// A path: its components from the root on.
pub struct Path {
    pub components: Vec<String>,
}

/// The texts of a list of strings.
pub open spec fn texts_of(v: Seq<String>) -> Seq<Seq<char>> {
    Seq::new(v.len(), |i: int| v[i]@)
}

impl View for Path {
    type V = Seq<Seq<char>>;

    open spec fn view(&self) -> Seq<Seq<char>> {
        texts_of(self.components@)
    }
}

/// Adding a string to a list adds its text to the texts.
pub proof fn lemma_texts_push(v: Seq<String>, x: String)
    ensures
        texts_of(v.push(x)) == texts_of(v).push(x@),
{
    assert(texts_of(v.push(x)) =~= texts_of(v).push(x@));
}

/// A copy of a list of strings.
pub fn clone_strings(v: &Vec<String>) -> (r: Vec<String>)
    ensures
        texts_of(r@) == texts_of(v@),
{
    let mut r: Vec<String> = Vec::new();
    let mut i: usize = 0;
    while i < v.len()
        invariant
            i <= v@.len(),
            r@.len() == i,
            forall|j: int| 0 <= j < i ==> #[trigger] r@[j]@ == v@[j]@,
        decreases v@.len() - i,
    {
        r.push(v[i].clone());
        i = i + 1;
    }
    assert(texts_of(r@) =~= texts_of(v@));
    r
}

impl Clone for Path {
    fn clone(&self) -> (r: Self)
        ensures
            r@ == self@,
    {
        Path { components: clone_strings(&self.components) }
    }
}


/// The pieces of `s` between its slashes, as `str::split` gives them: one
/// more than there are slashes.
pub open spec fn split_slash(s: Seq<char>) -> Seq<Seq<char>>
    decreases s.len(),
{
    if s.len() == 0 {
        seq![Seq::empty()]
    } else {
        let prev = split_slash(s.drop_last());
        if s.last() == '/' {
            prev.push(Seq::empty())
        } else {
            prev.update(prev.len() - 1, prev.last().push(s.last()))
        }
    }
}

proof fn lemma_split_len(s: Seq<char>)
    ensures
        split_slash(s).len() >= 1,
        s.contains('/') ==> split_slash(s).len() >= 2,
    decreases s.len(),
{
    if s.len() > 0 {
        lemma_split_len(s.drop_last());
        if s.contains('/') && s.last() != '/' {
            let i = choose|i: int| 0 <= i < s.len() && s[i] == '/';
            assert(s.drop_last()[i] == '/');
        }
    }
}

/// The components of the path text `s`: the pieces between its slashes,
/// without the empty piece before a leading slash and after a trailing one.
pub open spec fn path_pieces(s: Seq<char>) -> Seq<Seq<char>> {
    let l0 = split_slash(s);
    let l1 = if s.len() > 0 && s[0] == '/' {
        l0.drop_first()
    } else {
        l0
    };
    if s.len() > 0 && s.last() == '/' {
        l1.drop_last()
    } else {
        l1
    }
}

/// Whether the pieces make a path: none is empty, unless it is the only one.
pub open spec fn pieces_ok(l: Seq<Seq<char>>) -> bool {
    forall|i: int| 0 <= i < l.len() ==> (#[trigger] l[i]).len() == 0 ==> l.len() == 1
}

/// The text `..`.
pub open spec fn dot_dot() -> Seq<char> {
    seq!['.', '.']
}

/// The text `.`.
pub open spec fn dot() -> Seq<char> {
    seq!['.']
}

/// The components with `.` dropped and each `..` taking back the component
/// before it, where there is one.
pub open spec fn reduced(l: Seq<Seq<char>>) -> Seq<Seq<char>>
    decreases l.len(),
{
    if l.len() == 0 {
        l
    } else {
        let out = reduced(l.drop_last());
        let c = l.last();
        if c == dot_dot() && out.len() != 0 {
            out.drop_last()
        } else if c != dot() {
            out.push(c)
        } else {
            out
        }
    }
}

/// Components as `reduced` leaves them: no `.`, and `..` only first.
pub open spec fn is_reduced(l: Seq<Seq<char>>) -> bool {
    forall|i: int| 0 <= i < l.len() ==> #[trigger] l[i] != dot() && (l[i] == dot_dot() ==> i == 0)
}

proof fn lemma_reduced_shape(l: Seq<Seq<char>>)
    ensures
        is_reduced(reduced(l)),
    decreases l.len(),
{
    if l.len() > 0 {
        lemma_reduced_shape(l.drop_last());
    }
}

proof fn lemma_reduced_fixed(l: Seq<Seq<char>>)
    requires
        is_reduced(l),
    ensures
        reduced(l) == l,
    decreases l.len(),
{
    if l.len() > 0 {
        let d = l.drop_last();
        assert(is_reduced(d)) by {
            assert forall|i: int| 0 <= i < d.len() implies #[trigger] d[i] != dot() && (d[i] == dot_dot() ==> i == 0) by {
                assert(d[i] == l[i]);
            }
        }
        lemma_reduced_fixed(d);
        let c = l.last();
        assert(l[l.len() - 1] == c);
        assert(d.push(c) =~= l);
    }
}

/// Reducing a path's components drops every `.`, leaves `..` only first
/// (where no component before it was left to take back), and reducing
/// again changes nothing.
pub proof fn lemma_reduce_idempotent(l: Seq<Seq<char>>)
    ensures
        forall|i: int| 0 <= i < reduced(l).len() ==> #[trigger] reduced(l)[i] != dot(),
        forall|i: int| 0 < i < reduced(l).len() ==> #[trigger] reduced(l)[i] != dot_dot(),
        reduced(reduced(l)) == reduced(l),
{
    lemma_reduced_shape(l);
    lemma_reduced_fixed(reduced(l));
}

/// What one more component does to a reduced path: `.` changes nothing;
/// `..` takes back the last component kept, when there is one (a `..`
/// included), and is kept itself otherwise; any other component is kept at
/// the end.  With no components, nothing is kept.
pub proof fn lemma_reduce_steps(l: Seq<Seq<char>>, c: Seq<char>)
    ensures
        reduced(Seq::<Seq<char>>::empty()) == Seq::<Seq<char>>::empty(),
        reduced(l.push(dot())) == reduced(l),
        reduced(l).len() > 0 ==> reduced(l.push(dot_dot())) == reduced(l).drop_last(),
        reduced(l).len() == 0 ==> reduced(l.push(dot_dot())) == seq![dot_dot()],
        c != dot() && c != dot_dot() ==> reduced(l.push(c)) == reduced(l).push(c),
{
    assert(l.push(dot()).drop_last() =~= l);
    assert(l.push(dot_dot()).drop_last() =~= l);
    assert(l.push(c).drop_last() =~= l);
    assert(dot() != dot_dot()) by {
        assert(dot().len() != dot_dot().len());
    }
    if reduced(l).len() == 0 {
        assert(reduced(l).push(dot_dot()) =~= seq![dot_dot()]);
    }
}

impl Path {
    /// The path that the text `path` names, its components separated by
    /// slashes; `ENOENT` when a component is empty.
    pub fn new_s(path: String) -> (r: Result<Self, ErrorNum>)
        ensures
            pieces_ok(path_pieces(path@)) ==> (r matches Ok(p) && p@ == path_pieces(path@)),
            !pieces_ok(path_pieces(path@)) ==> r == Err::<Path, ErrorNum>(ErrorNum::ENOENT),
    {
        let st = path.as_str();
        let n = st.unicode_len();
        let mut list: Vec<String> = Vec::new();
        let mut cur = String::from_str("");
        proof {
            reveal_strlit("");
            assert(st@.take(0) =~= Seq::<char>::empty());
            assert(cur@ =~= Seq::<char>::empty());
            assert(texts_of(list@) =~= Seq::<Seq<char>>::empty());
            assert(texts_of(list@).push(cur@) =~= split_slash(st@.take(0)));
        }
        let mut i: usize = 0;
        while i < n
            invariant
                n == st@.len(),
                i <= n,
                texts_of(list@).push(cur@) == split_slash(st@.take(i as int)),
            decreases n - i,
        {
            let c = st.get_char(i);
            proof {
                assert(st@.take(i + 1).drop_last() =~= st@.take(i as int));
                assert(st@.take(i + 1).last() == c);
            }
            let ghost prev = split_slash(st@.take(i as int));
            if c == '/' {
                let done = cur;
                let ghost old_list = list@;
                list.push(done);
                cur = String::from_str("");
                proof {
                    reveal_strlit("");
                    lemma_texts_push(old_list, done);
                    assert(cur@ =~= Seq::<char>::empty());
                    assert(texts_of(list@).push(cur@) =~= prev.push(Seq::empty()));
                }
            } else {
                let ghost before = cur@;
                cur.append(st.substring_char(i, i + 1));
                proof {
                    assert(st@.subrange(i as int, i + 1) =~= seq![c]);
                    assert(cur@ =~= before.push(c));
                    assert(texts_of(list@).push(cur@) =~= prev.update(prev.len() - 1, prev.last().push(c)));
                }
            }
            i = i + 1;
        }
        let ghost before_last = list@;
        let ghost last_piece = cur@;
        list.push(cur);
        proof {
            lemma_texts_push(before_last, cur);
            assert(st@.take(n as int) =~= st@);
            assert(texts_of(list@) =~= split_slash(st@));
            lemma_split_len(st@);
        }
        let ghost l0 = texts_of(list@);
        if n > 0 && st.get_char(0) == '/' {
            list.remove(0);
            proof {
                assert(texts_of(list@) =~= l0.drop_first());
            }
        }
        let ghost l1 = texts_of(list@);
        if n > 0 && st.get_char(n - 1) == '/' {
            if list.len() > 0 {
                list.pop();
            }
            proof {
                assert(texts_of(list@) =~= l1.drop_last());
            }
        }
        proof {
            assert(texts_of(list@) == path_pieces(path@));
        }
        let total = list.len();
        let mut j: usize = 0;
        while j < total
            invariant
                total == list@.len(),
                texts_of(list@) == path_pieces(path@),
                j <= total,
                forall|q: int| 0 <= q < j ==> (#[trigger] texts_of(list@)[q]).len() == 0 ==> total == 1,
            decreases total - j,
        {
            if list[j].as_str().unicode_len() == 0 && total != 1 {
                proof {
                    assert(texts_of(list@)[j as int].len() == 0);
                }
                return Err(ErrorNum::ENOENT);
            }
            j = j + 1;
        }
        Ok(Path { components: list })
    }

    /// The path that the text `path` names.
    pub fn new(path: &str) -> (r: Result<Self, ErrorNum>)
        ensures
            pieces_ok(path_pieces(path@)) ==> (r matches Ok(p) && p@ == path_pieces(path@)),
            !pieces_ok(path_pieces(path@)) ==> r == Err::<Path, ErrorNum>(ErrorNum::ENOENT),
    {
        Self::new_s(crate::text::owned(path))
    }

    /// Whether this is the root: no components.
    pub fn is_root(&self) -> (r: bool)
        ensures
            r == (self@.len() == 0),
    {
        self.components.len() == 0
    }

    /// The root.
    pub fn root() -> (r: Self)
        ensures
            r@.len() == 0,
    {
        Path { components: Vec::new() }
    }

    /// Whether `prefix` is the start of this path.
    pub fn starts_with(&self, prefix: &Path) -> (r: bool)
        ensures
            r == (prefix@.len() <= self@.len() && self@.take(prefix@.len() as int) == prefix@),
    {
        if prefix.components.len() == 0 {
            proof {
                assert(self@.take(0) =~= prefix@);
            }
            return true;
        }
        if prefix.components.len() > self.components.len() {
            return false;
        }
        let mut i: usize = 0;
        while i < prefix.components.len()
            invariant
                prefix@.len() <= self@.len(),
                i <= prefix@.len(),
                forall|j: int| 0 <= j < i ==> self@[j] == prefix@[j],
            decreases prefix@.len() - i,
        {
            if !str_eq(self.components[i].as_str(), prefix.components[i].as_str()) {
                proof {
                    assert(self@[i as int] != prefix@[i as int]);
                    assert(self@.take(prefix@.len() as int)[i as int] == self@[i as int]);
                }
                return false;
            }
            i = i + 1;
        }
        proof {
            assert(self@.take(prefix@.len() as int) =~= prefix@);
        }
        true
    }

    /// The number of components.
    pub fn len(&self) -> (r: usize)
        ensures
            r == self@.len(),
    {
        self.components.len()
    }

    /// The path with `prefix`, which it starts with, taken off.
    pub fn without_prefix(&self, prefix: &Path) -> (r: Self)
        requires
            prefix@.len() <= self@.len(),
            self@.take(prefix@.len() as int) == prefix@,
        ensures
            r@ == self@.skip(prefix@.len() as int),
    {
        let mut v: Vec<String> = Vec::new();
        let mut i: usize = prefix.components.len();
        let ghost start = prefix@.len() as int;
        while i < self.components.len()
            invariant
                0 <= start <= i <= self@.len(),
                texts_of(v@) == self@.subrange(start, i as int),
            decreases self@.len() - i,
        {
            let ghost before = v@;
            let item = self.components[i].clone();
            v.push(item);
            proof {
                lemma_texts_push(before, item);
                assert(texts_of(v@) =~= self@.subrange(start, i + 1));
            }
            i = i + 1;
        }
        Path { components: v }
    }

    /// The path with `comp` added at its end; `ENOENT` when `comp` holds a slash.
    pub fn append(&self, comp: String) -> (r: Result<Path, ErrorNum>)
        ensures
            comp@.contains('/') ==> r == Err::<Path, ErrorNum>(ErrorNum::ENOENT),
            !comp@.contains('/') ==> (r matches Ok(p) && p@ == self@.push(comp@)),
    {
        let st = comp.as_str();
        let n = st.unicode_len();
        let mut i: usize = 0;
        while i < n
            invariant
                n == st@.len(),
                st@ == comp@,
                i <= n,
                forall|j: int| 0 <= j < i ==> st@[j] != '/',
            decreases n - i,
        {
            if st.get_char(i) == '/' {
                proof {
                    assert(st@[i as int] == '/');
                }
                return Err(ErrorNum::ENOENT);
            }
            i = i + 1;
        }
        let mut components = clone_strings(&self.components);
        let ghost before = components@;
        components.push(comp);
        proof {
            lemma_texts_push(before, comp);
        }
        Ok(Path { components })
    }

    /// The path without its first component; it must have one.
    pub fn strip_head(&self) -> (r: Self)
        requires
            self@.len() > 0,
        ensures
            r@ == self@.drop_first(),
    {
        let mut v: Vec<String> = Vec::new();
        let mut i: usize = 1;
        while i < self.components.len()
            invariant
                1 <= i <= self@.len(),
                texts_of(v@) == self@.subrange(1, i as int),
            decreases self@.len() - i,
        {
            let ghost before = v@;
            let item = self.components[i].clone();
            v.push(item);
            proof {
                lemma_texts_push(before, item);
                assert(texts_of(v@) =~= self@.subrange(1, i + 1));
            }
            i = i + 1;
        }
        Path { components: v }
    }

    /// The path without its last component; it must have one.
    pub fn strip_tail(&self) -> (r: Self)
        requires
            self@.len() > 0,
        ensures
            r@ == self@.drop_last(),
    {
        let mut v: Vec<String> = Vec::new();
        let mut i: usize = 0;
        let end = self.components.len() - 1;
        while i < end
            invariant
                end == self@.len() - 1,
                i <= end,
                texts_of(v@) == self@.subrange(0, i as int),
            decreases end - i,
        {
            let ghost before = v@;
            let item = self.components[i].clone();
            v.push(item);
            proof {
                lemma_texts_push(before, item);
                assert(texts_of(v@) =~= self@.subrange(0, i + 1));
            }
            i = i + 1;
        }
        Path { components: v }
    }

    /// The last component; the path must have one.
    pub fn last(&self) -> (r: String)
        requires
            self@.len() > 0,
        ensures
            r@ == self@.last(),
    {
        self.components[self.components.len() - 1].clone()
    }

    /// This path followed by `rhs`.
    pub fn concat(&self, rhs: &Path) -> (r: Self)
        ensures
            r@ == self@ + rhs@,
    {
        let mut components = clone_strings(&self.components);
        let mut i: usize = 0;
        let ghost head = texts_of(components@);
        while i < rhs.components.len()
            invariant
                head == self@,
                i <= rhs@.len(),
                texts_of(components@) == head + rhs@.take(i as int),
            decreases rhs@.len() - i,
        {
            let ghost before = components@;
            let item = rhs.components[i].clone();
            components.push(item);
            proof {
                lemma_texts_push(before, item);
                assert(texts_of(components@) =~= head + rhs@.take(i + 1));
            }
            i = i + 1;
        }
        proof {
            assert(rhs@.take(rhs@.len() as int) =~= rhs@);
        }
        Path { components }
    }

    /// Drops the `.` components, and lets each `..` take back the component
    /// before it, where there is one.
    pub fn reduce(&mut self)
        ensures
            final(self)@ == reduced(old(self)@),
    {
        let mut out: Vec<String> = Vec::new();
        let mut i: usize = 0;
        let n = self.components.len();
        proof {
            assert(reduced(self@.take(0)) =~= texts_of(out@));
        }
        while i < n
            invariant
                n == self@.len(),
                i <= n,
                texts_of(out@) == reduced(self@.take(i as int)),
            decreases n - i,
        {
            let c = self.components[i].clone();
            proof {
                reveal_strlit("..");
                reveal_strlit(".");
                assert(self@.take(i + 1).drop_last() =~= self@.take(i as int));
                assert(self@.take(i + 1).last() == c@);
            }
            let is_up = str_eq(c.as_str(), "..");
            let is_here = str_eq(c.as_str(), ".");
            proof {
                assert("..".view() =~= dot_dot());
                assert(".".view() =~= dot());
            }
            if is_up && out.len() != 0 {
                out.pop();
                proof {
                    assert(texts_of(out@) =~= reduced(self@.take(i + 1)));
                }
            } else if !is_here {
                out.push(c);
                proof {
                    assert(texts_of(out@) =~= reduced(self@.take(i + 1)));
                }
            } else {
                proof {
                    assert(texts_of(out@) =~= reduced(self@.take(i + 1)));
                }
            }
            i = i + 1;
        }
        proof {
            assert(self@.take(n as int) =~= self@);
        }
        self.components = out;
    }
}

} // verus!

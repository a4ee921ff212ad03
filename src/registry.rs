//! Canonical, deduplicated storage of maps, textures and trainer types.
//!
//! The canonicalization key of every asset is its full content, as given by
//! its view: two assets are the same asset exactly when their views agree.
use vstd::prelude::*;

verus! {

/// Content comparison on which interning is keyed.
pub trait Canonical: View + Sized {
    fn same_content(&self, other: &Self) -> (r: bool)
        ensures
            r == (self@ == other@),
    ;
}

/// A non-owning reference to a value stored in a `Registry`.
#[derive(Clone, Copy, Debug, PartialEq, Eq, Structural)]
pub struct Handle {
    pub index: usize,
}

/// A map: a rectangle whose sides are both positive.
#[derive(Clone, Copy, Debug, PartialEq, Eq, Structural)]
pub struct TileMap {
    width: u32,
    height: u32,
}

impl View for TileMap {
    type V = TileMap;

    open spec fn view(&self) -> TileMap {
        *self
    }
}

impl TileMap {
    pub closed spec fn spec_width(self) -> u32 {
        self.width
    }

    pub closed spec fn spec_height(self) -> u32 {
        self.height
    }

    #[verifier::type_invariant]
    closed spec fn sides_positive(self) -> bool {
        self.width > 0 && self.height > 0
    }

    /// A map of the given size; `None` when a side is zero.
    pub fn new(width: u32, height: u32) -> (r: Option<TileMap>)
        ensures
            r is Some <==> (width > 0 && height > 0),
            r matches Some(m) ==> m.spec_width() == width && m.spec_height() == height,
    {
        if width > 0 && height > 0 {
            Some(TileMap { width, height })
        } else {
            None
        }
    }

    pub fn width(&self) -> (r: u32)
        ensures
            r == self.spec_width(),
            r > 0,
    {
        proof {
            use_type_invariant(self);
        }
        self.width
    }

    pub fn height(&self) -> (r: u32)
        ensures
            r == self.spec_height(),
            r > 0,
    {
        proof {
            use_type_invariant(self);
        }
        self.height
    }
}

impl Canonical for TileMap {
    fn same_content(&self, other: &Self) -> (r: bool) {
        self.width == other.width && self.height == other.height
    }
}

/// A named category of non-player character.
#[derive(Clone, Debug)]
pub struct TrainerType {
    pub name: String,
}

impl View for TrainerType {
    type V = Seq<char>;

    open spec fn view(&self) -> Seq<char> {
        self.name@
    }
}

impl Canonical for TrainerType {
    fn same_content(&self, other: &Self) -> (r: bool) {
        self.name == other.name
    }
}

/// An already-decoded drawable resource: its size and its pixels.
#[derive(Clone, Debug)]
pub struct Texture {
    pub width: u32,
    pub height: u32,
    pub pixels: Vec<u32>,
}

impl View for Texture {
    type V = (u32, u32, Seq<u32>);

    open spec fn view(&self) -> (u32, u32, Seq<u32>) {
        (self.width, self.height, self.pixels@)
    }
}

impl Canonical for Texture {
    fn same_content(&self, other: &Self) -> (r: bool) {
        if self.width != other.width || self.height != other.height
            || self.pixels.len() != other.pixels.len() {
            return false;
        }
        let n = self.pixels.len();
        let mut i: usize = 0;
        while i < n
            invariant
                n == self.pixels@.len(),
                n == other.pixels@.len(),
                i <= n,
                forall|k: int| 0 <= k < i ==> self.pixels@[k] == other.pixels@[k],
            decreases n - i,
        {
            if self.pixels[i] != other.pixels[i] {
                return false;
            }
            i = i + 1;
        }
        proof {
            assert(self.pixels@ =~= other.pixels@);
        }
        true
    }
}

/// Whether no value occurs twice in `s`.
pub open spec fn distinct<V>(s: Seq<V>) -> bool {
    forall|i: int, j: int| 0 <= i < s.len() && 0 <= j < s.len() && i != j ==> s[i] != s[j]
}

/// What interning `v` into contents `s` gives: the new contents and the
/// handle's index.
pub open spec fn spec_intern<V>(s: Seq<V>, v: V) -> (Seq<V>, int) {
    if s.contains(v) {
        (s, choose|i: int| 0 <= i < s.len() && s[i] == v)
    } else {
        (s.push(v), s.len() as int)
    }
}

/// An append-only store that holds each content at most once.
pub struct Registry<T> {
    items: Vec<T>,
}

impl<T: Canonical> View for Registry<T> {
    type V = Seq<T::V>;

    closed spec fn view(&self) -> Seq<T::V> {
        self.items@.map_values(|t: T| t@)
    }
}

impl<T: Canonical> Registry<T> {
    pub open spec fn wf(&self) -> bool {
        distinct(self@)
    }

    pub open spec fn has(&self, h: Handle) -> bool {
        h.index < self@.len()
    }

    pub fn new() -> (r: Self)
        ensures
            r.wf(),
            r@ == Seq::<T::V>::empty(),
    {
        let r = Registry { items: Vec::new() };
        proof {
            assert(r@ =~= Seq::<T::V>::empty());
        }
        r
    }

    pub fn len(&self) -> (r: usize)
        ensures
            r == self@.len(),
    {
        self.items.len()
    }

    /// Whether `h` refers to a stored value.
    pub fn contains_handle(&self, h: Handle) -> (r: bool)
        ensures
            r == self.has(h),
    {
        h.index < self.items.len()
    }

    pub fn get(&self, h: Handle) -> (r: &T)
        requires
            self.has(h),
        ensures
            r@ == self@[h.index as int],
    {
        &self.items[h.index]
    }

    /// Returns the handle of the stored value equal to `v`, storing `v` first
    /// when no such value is there yet.
    pub fn intern(&mut self, v: T) -> (h: Handle)
        requires
            old(self).wf(),
        ensures
            final(self).wf(),
            (final(self)@, h.index as int) == spec_intern(old(self)@, v@),
    {
        let n = self.items.len();
        let mut i: usize = 0;
        while i < n
            invariant
                n == self.items@.len(),
                i <= n,
                self.wf(),
                forall|k: int| 0 <= k < i ==> self@[k] != v@,
            decreases n - i,
        {
            if self.items[i].same_content(&v) {
                proof {
                    assert(self@.contains(v@)) by {
                        assert(self@[i as int] == v@);
                    }
                    let c = choose|k: int| 0 <= k < self@.len() && self@[k] == v@;
                    assert(c == i);
                }
                return Handle { index: i };
            }
            i = i + 1;
        }
        proof {
            assert(!self@.contains(v@));
        }
        let ghost before = self@;
        self.items.push(v);
        proof {
            assert(self@ =~= before.push(v@));
        }
        Handle { index: n }
    }
}

/// Interning the same content twice gives one handle and leaves the contents
/// as the first interning left them; interning two different contents gives
/// two different handles.
pub proof fn lemma_intern_dedup<V>(s: Seq<V>, v: V, w: V)
    requires
        distinct(s),
    ensures
        spec_intern(spec_intern(s, v).0, v) == spec_intern(s, v),
        v != w ==> spec_intern(spec_intern(s, v).0, w).1 != spec_intern(s, v).1,
        distinct(spec_intern(s, v).0),
{
    let (s1, h1) = spec_intern(s, v);
    lemma_intern_facts(s, v);
    lemma_intern_facts(s1, v);
    lemma_intern_facts(s1, w);
    let c = choose|i: int| 0 <= i < s1.len() && s1[i] == v;
    assert(s1.contains(v));
    assert(c == h1);
}

/// What `spec_intern` gives: the contents keep distinctness, hold `v` at the
/// returned index, and only grow by `v`.
pub proof fn lemma_intern_facts<V>(s: Seq<V>, v: V)
    requires
        distinct(s),
    ensures
        ({
            let (s1, h) = spec_intern(s, v);
            &&& distinct(s1)
            &&& 0 <= h < s1.len()
            &&& s1[h] == v
            &&& s1.len() <= s.len() + 1
            &&& forall|k: int| 0 <= k < s.len() ==> s1[k] == s[k]
            &&& s.contains(v) ==> s1 == s
        }),
{
    if s.contains(v) {
        let c = choose|i: int| 0 <= i < s.len() && s[i] == v;
    } else {
        let s1 = s.push(v);
        assert forall|i: int, j: int| 0 <= i < s1.len() && 0 <= j < s1.len() && i != j
            implies s1[i] != s1[j] by {
            if i == s.len() {
                assert(s[j] == s1[j]);
            } else if j == s.len() {
                assert(s[i] == s1[i]);
            }
        }
    }
}

} // verus!

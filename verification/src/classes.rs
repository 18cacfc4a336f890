use crate::text::str_eq;
use vstd::prelude::*;
use vstd::std_specs::iter::IteratorSpec;
use vstd::string::*;

verus! {

/// `s[from..to]` is one of the pieces into which occurrences of `sep` cut
/// `s`: it runs from the start of `s` or from just behind a separator, up to
/// the next separator or the end of `s`.
pub open spec fn is_piece(s: Seq<char>, sep: char, from: int, to: int) -> bool {
    &&& 0 <= from <= to <= s.len()
    &&& (from == 0 || s[from - 1] == sep)
    &&& (to == s.len() || s[to] == sep)
    &&& forall|k: int| from <= k < to ==> s[k] != sep
}

/// The pieces into which occurrences of `sep` cut `s`, as a set. Two
/// separators in a row, or one at either end of `s`, give the empty piece.
pub open spec fn pieces(s: Seq<char>, sep: char) -> Set<Seq<char>> {
    Set::new(
        |piece: Seq<char>|
            exists|from: int, to: int|
                is_piece(s, sep, from, to) && #[trigger] s.subrange(from, to) == piece,
    )
}

/// The pieces of `s` that end before position `limit`.
pub open spec fn pieces_before(s: Seq<char>, sep: char, limit: int) -> Set<Seq<char>> {
    Set::new(
        |piece: Seq<char>|
            exists|from: int, to: int|
                is_piece(s, sep, from, to) && to < limit && #[trigger] s.subrange(from, to)
                    == piece,
    )
}

/// The character contents of stored names.
pub open spec fn contents(names: Seq<&str>) -> Seq<Seq<char>> {
    names.map_values(|name: &str| name@)
}

/// When a piece starts at `start` and no separator stands in `s[start..k]`,
/// the only piece that can end in `start..=k` is `s[start..k]` itself.
proof fn lemma_piece_in_progress(s: Seq<char>, sep: char, start: int, k: int, from: int, to: int)
    requires
        0 <= start <= k <= s.len(),
        start == 0 || s[start - 1] == sep,
        forall|j: int| start <= j < k ==> s[j] != sep,
        is_piece(s, sep, from, to),
        start <= to <= k,
    ensures
        from == start,
        to == k,
{
}

/// Closing the piece `s[start..k]` adds exactly that piece to those that end
/// before `start`.
proof fn lemma_pieces_step(s: Seq<char>, sep: char, start: int, k: int)
    requires
        0 <= start <= k <= s.len(),
        start == 0 || s[start - 1] == sep,
        forall|j: int| start <= j < k ==> s[j] != sep,
        k == s.len() || s[k] == sep,
    ensures
        pieces_before(s, sep, k + 1) == pieces_before(s, sep, start).insert(s.subrange(start, k)),
        k == s.len() ==> pieces(s, sep) == pieces_before(s, sep, k + 1),
{
    let grown = pieces_before(s, sep, start).insert(s.subrange(start, k));
    assert forall|piece: Seq<char>| pieces_before(s, sep, k + 1).contains(piece) implies grown.contains(
        piece,
    ) by {
        let (from, to) = choose|from: int, to: int|
            is_piece(s, sep, from, to) && to < k + 1 && #[trigger] s.subrange(from, to) == piece;
        if to >= start {
            lemma_piece_in_progress(s, sep, start, k, from, to);
        }
    }
}

/// The class names of an element: a set of slices of its `class` attribute.
pub struct ClassSet<'a> {
    names: Vec<&'a str>,
}

impl<'a> View for ClassSet<'a> {
    type V = Set<Seq<char>>;

    closed spec fn view(&self) -> Set<Seq<char>> {
        contents(self.names@).to_set()
    }
}

impl<'a> ClassSet<'a> {
    /// Every value of this type holds each name once.
    #[verifier::type_invariant]
    closed spec fn wf(&self) -> bool {
        contents(self.names@).no_duplicates()
    }

    /// The empty set.
    pub fn new() -> (set: ClassSet<'a>)
        ensures
            set@ == Set::<Seq<char>>::empty(),
    {
        ClassSet { names: Vec::new() }
    }

    /// The names of the set, each once, in the order in which they entered.
    pub fn names(&self) -> (names: &Vec<&'a str>)
        ensures
            contents(names@).no_duplicates(),
            contents(names@).to_set() == self@,
    {
        proof {
            use_type_invariant(self);
        }
        &self.names
    }

    /// The number of names in the set.
    pub fn len(&self) -> (n: usize)
        ensures
            self@.finite(),
            n == self@.len(),
    {
        proof {
            use_type_invariant(self);
            contents(self.names@).unique_seq_to_set();
        }
        self.names.len()
    }

    /// Whether `name` is in the set.
    pub fn contains(&self, name: &str) -> (found: bool)
        ensures
            found == self@.contains(name@),
    {
        let mut i: usize = 0;
        while i < self.names.len()
            invariant
                i <= self.names.len(),
                forall|j: int| 0 <= j < i ==> (#[trigger] contents(self.names@)[j]) != name@,
            decreases self.names.len() - i,
        {
            if str_eq(self.names[i], name) {
                proof {
                    assert(contents(self.names@)[i as int] == name@);
                }
                return true;
            }
            i = i + 1;
        }
        false
    }

    /// Adds `name`; a name that the set already holds is not added again.
    pub fn insert(&mut self, name: &'a str)
        ensures
            final(self)@ == old(self)@.insert(name@),
    {
        proof {
            use_type_invariant(&*self);
        }
        if !self.contains(name) {
            let ghost before = contents(self.names@);
            let mut names: Vec<&'a str> = Vec::new();
            std::mem::swap(&mut self.names, &mut names);
            names.push(name);
            proof {
                assert(contents(names@) =~= before.push(name@));
                before.lemma_push_to_set_commute(name@);
            }
            std::mem::swap(&mut self.names, &mut names);
        }
    }
}

/// Cuts `s` at every occurrence of `sep` and collects the pieces.
pub fn split_set<'a>(s: &'a str, sep: char) -> (set: ClassSet<'a>)
    ensures
        set@ == pieces(s@, sep),
{
    let n = s.unicode_len();
    let mut set = ClassSet::new();
    let mut rest = s.chars();
    let mut start: usize = 0;
    let mut k: usize = 0;
    while k < n
        invariant
            n == s@.len(),
            0 <= start <= k <= n,
            rest.remaining() == s@.skip(k as int),
            start == 0 || s@[start - 1] == sep,
            forall|j: int| start <= j < k ==> s@[j] != sep,
            set@ == pieces_before(s@, sep, start as int),
        decreases n - k,
    {
        let next = rest.next();
        if next == Some(sep) {
            proof {
                lemma_pieces_step(s@, sep, start as int, k as int);
            }
            set.insert(s.substring_char(start, k));
            start = k + 1;
        }
        k = k + 1;
    }
    proof {
        lemma_pieces_step(s@, sep, start as int, k as int);
    }
    set.insert(s.substring_char(start, k));
    set
}

} // verus!

//! Nouns: binary trees whose leaves are byte strings.

use vstd::prelude::*;
use vstd::utf8::*;

verus! {

/// A noun: an atom, or a cell of two nouns.
///
/// An atom is held as its little-endian bytes, as they are stored. Zero bytes
/// at the end do not change the number that the bytes denote.
#[derive(Debug)]
pub enum Noun {
    Atom(Vec<u8>),
    Cell(Box<Noun>, Box<Noun>),
}

/// The mathematical noun that a [`Noun`] stands for.
#[verifier::ext_equal]
pub enum NounView {
    Atom(Seq<u8>),
    Cell(Box<NounView>, Box<NounView>),
}

/// Whether the atom `stored` is the byte string `expected`: `expected` is a
/// prefix of `stored`, and only zero bytes follow it.
pub open spec fn same_atom(stored: Seq<u8>, expected: Seq<u8>) -> bool {
    &&& expected.len() <= stored.len()
    &&& stored.subrange(0, expected.len() as int) == expected
    &&& forall|i: int| expected.len() <= i < stored.len() ==> stored[i] == 0
}

/// The number that little-endian bytes denote.
pub open spec fn atom_value(bytes: Seq<u8>) -> nat
    decreases bytes.len(),
{
    if bytes.len() == 0 {
        0
    } else {
        bytes.first() as nat + 256 * atom_value(bytes.drop_first())
    }
}

impl NounView {
    /// Whether the noun is the atom of the text `s`.
    pub open spec fn is_text(self, s: Seq<char>) -> bool {
        self matches NounView::Atom(bytes) && same_atom(bytes, encode_utf8(s))
    }
}

/// The cell of two nouns.
pub open spec fn cell_view(head: NounView, tail: NounView) -> NounView {
    NounView::Cell(Box::new(head), Box::new(tail))
}

/// The atom of a 64-bit number, in its eight little-endian bytes.
pub open spec fn number_view(n: u64) -> NounView {
    NounView::Atom(vstd::bytes::spec_u64_to_le_bytes(n))
}

/// The tuple of `items`: the cell of the first item and the tuple of the rest.
pub open spec fn tuple_view(items: Seq<NounView>) -> NounView
    decreases items.len(),
{
    if items.len() <= 1 {
        items[0]
    } else {
        cell_view(items.first(), tuple_view(items.drop_first()))
    }
}

impl Noun {
    pub open spec fn shape(self) -> NounView
        decreases self,
    {
        match self {
            Noun::Atom(bytes) => NounView::Atom(bytes@),
            Noun::Cell(head, tail) => cell_view(head.shape(), tail.shape()),
        }
    }
}

impl View for Noun {
    type V = NounView;

    open spec fn view(&self) -> NounView {
        self.shape()
    }
}

impl Clone for Noun {
    fn clone(&self) -> (r: Self)
        ensures
            r@ == self@,
        decreases self,
    {
        match self {
            Noun::Atom(bytes) => {
                let copy = bytes.clone();
                assert(copy@ =~= bytes@);
                Noun::Atom(copy)
            },
            Noun::Cell(head, tail) => Noun::Cell(
                Box::new((&**head).clone()),
                Box::new((&**tail).clone()),
            ),
        }
    }
}

impl Noun {
    /// The atom of a text's bytes.
    pub fn text(s: &str) -> (r: Noun)
        ensures
            r@ == NounView::Atom(encode_utf8(s@)),
    {
        Noun::Atom(s.as_bytes_vec())
    }

    /// The atom of a number.
    pub fn number(n: u64) -> (r: Noun)
        ensures
            r@ == number_view(n),
    {
        Noun::Atom(vstd::bytes::u64_to_le_bytes(n))
    }

    /// The cell of two nouns.
    pub fn cell(head: Noun, tail: Noun) -> (r: Noun)
        ensures
            r@ == cell_view(head@, tail@),
    {
        Noun::Cell(Box::new(head), Box::new(tail))
    }

    /// The tuple of at least one noun.
    pub fn tuple(items: Vec<Noun>) -> (r: Noun)
        requires
            items@.len() > 0,
        ensures
            r@ == tuple_view(items@.map_values(|n: Noun| n@)),
    {
        let ghost views = items@.map_values(|n: Noun| n@);
        let mut rest = items;
        let mut acc = rest.pop().unwrap();
        assert(views.subrange(views.len() - 1, views.len() as int)[0] == acc@);
        while rest.len() > 0
            invariant
                rest@.len() < views.len(),
                forall|i: int| 0 <= i < rest@.len() ==> (#[trigger] rest@[i])@ == views[i],
                acc@ == tuple_view(views.subrange(rest@.len() as int, views.len() as int)),
            decreases rest@.len(),
        {
            let ghost k = rest@.len() - 1;
            let head = rest.pop().unwrap();
            proof {
                let longer = views.subrange(k, views.len() as int);
                assert(longer.drop_first() =~= views.subrange(k + 1, views.len() as int));
                assert(longer.first() == head@);
            }
            acc = Noun::cell(head, acc);
        }
        assert(views.subrange(0, views.len() as int) =~= views);
        acc
    }

    /// Whether the noun is the atom of the text `s`, zero bytes at its end
    /// aside.
    pub fn eq_text(&self, s: &str) -> (r: bool)
        ensures
            r == self@.is_text(s@),
    {
        match self {
            Noun::Atom(stored) => {
                let expected = s.as_bytes_vec();
                if expected.len() > stored.len() {
                    return false;
                }
                let mut i: usize = 0;
                while i < stored.len()
                    invariant
                        i <= stored@.len(),
                        expected@.len() <= stored@.len(),
                        forall|j: int|
                            0 <= j < i && j < expected@.len() ==> stored@[j] == expected@[j],
                        forall|j: int| expected@.len() <= j < i ==> stored@[j] == 0,
                        expected@ == encode_utf8(s@),
                        self@ == NounView::Atom(stored@),
                    decreases stored@.len() - i,
                {
                    if i < expected.len() {
                        if stored[i] != expected[i] {
                            assert(stored@.subrange(0, expected@.len() as int)[i as int]
                                != expected@[i as int]);
                            return false;
                        }
                    } else if stored[i] != 0 {
                        return false;
                    }
                    i = i + 1;
                }
                assert(stored@.subrange(0, expected@.len() as int) =~= expected@);
                true
            },
            Noun::Cell(..) => false,
        }
    }
}

/// A zero byte more at an atom's end does not matter to the byte strings that
/// the atom equals, save the one that has this zero byte itself.
pub proof fn lemma_trailing_zero_ignored(stored: Seq<u8>, expected: Seq<u8>)
    requires
        expected != stored.push(0),
    ensures
        same_atom(stored.push(0), expected) <==> same_atom(stored, expected),
{
    let longer = stored.push(0);
    if expected.len() <= stored.len() {
        assert(longer.subrange(0, expected.len() as int) =~= stored.subrange(
            0,
            expected.len() as int,
        ));
        assert(forall|i: int| 0 <= i < stored.len() ==> longer[i] == stored[i]);
    } else if expected.len() == longer.len() {
        assert(longer.subrange(0, expected.len() as int) =~= longer);
    }
}

/// Atoms that equal the same text denote the same number.
pub proof fn lemma_same_atom_same_value(stored: Seq<u8>, expected: Seq<u8>)
    requires
        same_atom(stored, expected),
    ensures
        atom_value(stored) == atom_value(expected),
    decreases stored.len(),
{
    if stored.len() == 0 {
        assert(expected =~= stored);
    } else if expected.len() == 0 {
        let rest = stored.drop_first();
        assert(rest.subrange(0, 0) =~= expected);
        lemma_same_atom_same_value(rest, expected);
    } else {
        let rest = stored.drop_first();
        let want = expected.drop_first();
        assert(stored.subrange(0, expected.len() as int)[0] == expected[0]);
        assert(rest.subrange(0, want.len() as int) =~= stored.subrange(
            0,
            expected.len() as int,
        ).drop_first());
        assert forall|i: int| want.len() <= i < rest.len() implies rest[i] == 0 by {
            assert(rest[i] == stored[i + 1]);
        }
        lemma_same_atom_same_value(rest, want);
    }
}

/// Zero bytes alone denote zero, and only they do.
proof fn lemma_zero_value(bytes: Seq<u8>)
    ensures
        atom_value(bytes) == 0 <==> (forall|i: int| 0 <= i < bytes.len() ==> bytes[i] == 0),
    decreases bytes.len(),
{
    if bytes.len() > 0 {
        let rest = bytes.drop_first();
        lemma_zero_value(rest);
        if atom_value(bytes) == 0 {
            assert forall|i: int| 0 <= i < bytes.len() implies bytes[i] == 0 by {
                if i > 0 {
                    assert(bytes[i] == rest[i - 1]);
                }
            }
        } else if forall|i: int| 0 <= i < bytes.len() ==> bytes[i] == 0 {
            assert forall|i: int| 0 <= i < rest.len() implies rest[i] == 0 by {
                assert(rest[i] == bytes[i + 1]);
            }
            assert(bytes.first() == 0);
        }
    }
}

/// An atom equals a byte string that does not end in a zero byte if and only if
/// both denote the same number.
pub proof fn lemma_same_atom_by_value(stored: Seq<u8>, expected: Seq<u8>)
    requires
        expected.len() > 0 ==> expected.last() != 0,
    ensures
        same_atom(stored, expected) <==> atom_value(stored) == atom_value(expected),
    decreases stored.len(),
{
    if same_atom(stored, expected) {
        lemma_same_atom_same_value(stored, expected);
    } else if atom_value(stored) == atom_value(expected) {
        lemma_zero_value(stored);
        lemma_zero_value(expected);
        if expected.len() == 0 {
            assert(stored.subrange(0, 0) =~= expected);
        } else if stored.len() == 0 {
            assert(expected[expected.len() - 1] == 0);
        } else {
            let rest = stored.drop_first();
            let want = expected.drop_first();
            assert(atom_value(rest) == atom_value(want) && stored[0] == expected[0]);
            if want.len() > 0 {
                assert(want.last() == expected.last());
            }
            lemma_same_atom_by_value(rest, want);
            assert(rest.subrange(0, want.len() as int) == want);
            assert forall|i: int| 0 <= i < expected.len() implies stored[i] == expected[i] by {
                if i > 0 {
                    assert(rest.subrange(0, want.len() as int)[i - 1] == want[i - 1]);
                }
            }
            assert(stored.subrange(0, expected.len() as int) =~= expected);
            assert forall|i: int| expected.len() <= i < stored.len() implies stored[i] == 0 by {
                assert(rest[i - 1] == stored[i]);
            }
        }
    }
}

} // verus!

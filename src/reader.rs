use vstd::prelude::*;

verus! {

/// The characters of the string, in order.
fn chars_of(s: &str) -> (r: Vec<char>)
    ensures
        r@ == s@,
{
    broadcast use vstd::string::group_string_axioms;
    let mut r: Vec<char> = Vec::new();
    for c in it: s.chars()
        invariant
            it.seq() == s@,
            r@ == s@.take(it.index() as int),
    {
        r.push(c);
        assert(r@ =~= s@.take(it.index() + 1));
    }
    assert(r@ =~= s@);
    r
}

/// The reader that traverses the characters of a string, with `next` and `peek`.
pub struct Reader {
    pub chars: Vec<char>,
    pub pos: usize,
}

impl Reader {
    /// The characters being read.
    pub open spec fn text(&self) -> Seq<char> {
        self.chars@
    }

    /// How many characters have been read.
    pub open spec fn position(&self) -> int {
        self.pos as int
    }

    /// The position stays within the text.
    pub open spec fn wf(&self) -> bool {
        self.pos <= self.chars@.len()
    }

    /// Create the reader at the start of a string.
    pub fn from(value: &str) -> (r: Self)
        ensures
            r.wf(),
            r.text() == value@,
            r.position() == 0,
    {
        Reader { chars: chars_of(value), pos: 0 }
    }

    /// Peek at the next character, but do not advance.
    pub fn peek(&self) -> (r: Option<char>)
        requires
            self.wf(),
        ensures
            self.position() < self.text().len() ==> r == Some(self.text()[self.position()]),
            self.position() >= self.text().len() ==> r is None,
    {
        if self.pos < self.chars.len() {
            Some(self.chars[self.pos])
        } else {
            None
        }
    }

    /// Take the next character.
    pub fn next(&mut self) -> (r: Option<char>)
        requires
            old(self).wf(),
        ensures
            final(self).wf(),
            final(self).text() == old(self).text(),
            old(self).position() < old(self).text().len() ==> r == Some(
                old(self).text()[old(self).position()],
            ) && final(self).position() == old(self).position() + 1,
            old(self).position() >= old(self).text().len() ==> r is None && final(self).position()
                == old(self).position(),
    {
        if self.pos < self.chars.len() {
            let c = self.chars[self.pos];
            self.pos += 1;
            Some(c)
        } else {
            None
        }
    }
}

} // verus!

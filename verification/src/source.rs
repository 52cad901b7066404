use vstd::prelude::*;

verus! {

/// A text to parse, held both as a string slice and as its characters.
pub struct Source<'a> {
    pub text: &'a str,
    pub chars: Vec<char>,
}

impl<'a> Source<'a> {
    pub open spec fn wf(&self) -> bool {
        &&& self.chars@ == self.text@
        &&& self.chars@.len() <= usize::MAX
    }

    pub fn new(text: &'a str) -> (src: Source<'a>)
        ensures
            src.wf(),
            src.text == text,
    {
        broadcast use vstd::string::axiom_spec_iter;

        let mut chars: Vec<char> = Vec::new();
        for c in it: text.chars()
            invariant
                it.seq() == text@,
                chars@ == it.seq().take(it.index() as int),
        {
            chars.push(c);
        }
        assert(chars@ == text@.take(text@.len() as int));
        assert(text@.take(text@.len() as int) =~= text@);
        let _n = chars.len();
        Source { text, chars }
    }
}

} // verus!

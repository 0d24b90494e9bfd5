//! General properties of the scanner, stated and proved over the model.

use vstd::prelude::*;

use crate::model::LexState;
use crate::model::SpecTok;
use crate::model::count_newlines;
use crate::model::initial_state;
use crate::model::spec_lex;
use crate::model::spec_lex_from;
use crate::model::spec_step;

verus! {

/// A text made of nothing but spaces and newlines.
pub open spec fn whitespace_only(s: Seq<char>) -> bool {
    forall|k: int| 0 <= k < s.len() ==> (s[k] == ' ' || s[k] == '\n')
}

proof fn lemma_whitespace_from(s: Seq<char>, st: LexState)
    requires
        whitespace_only(s),
        st.err is None,
        st.i <= s.len(),
    ensures
        spec_lex_from(s, st) == (LexState {
            i: s.len(),
            line: (st.line + count_newlines(s, st.i, s.len())) as nat,
            toks: st.toks,
            err: None,
        }),
    decreases s.len() - st.i,
{
    if st.i >= s.len() {
        assert(count_newlines(s, st.i, s.len()) == 0);
    } else {
        assert(s[st.i as int] == ' ' || s[st.i as int] == '\n');
        lemma_whitespace_from(s, spec_step(s, st));
    }
}

/// Scanning a text of only spaces and newlines succeeds, emits no token
/// at all, and leaves the line counter at one more than the number of
/// newlines in the text.
pub proof fn lemma_whitespace_scan(s: Seq<char>)
    requires
        whitespace_only(s),
    ensures
        spec_lex(s).err is None,
        spec_lex(s).toks == Seq::<SpecTok>::empty(),
        spec_lex(s).line == 1 + count_newlines(s, 0, s.len()),
{
    lemma_whitespace_from(s, initial_state());
}

/// Scanning is a function of the source text alone: two scanners built
/// over equal texts end in the same state — the same token sequence, the
/// same line count and the same error, if any.  Together with the
/// contract of [`crate::lexer::Lexer::lex`], this is what makes a second
/// scan of the same text yield an identical token sequence.
pub proof fn lemma_scan_deterministic(a: Seq<char>, b: Seq<char>)
    requires
        a == b,
    ensures
        spec_lex(a) == spec_lex(b),
{
}

} // verus!

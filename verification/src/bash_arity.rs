//! Word-aware matching of allow rules against command lines.
use vstd::prelude::*;

use crate::text::{chars_of, segments_equal, word_spans_of, words};

verus! {

/// An allow rule matches a command when the rule has at least one word and
/// its words are the leading words of the command: `git status` matches
/// `git status -s` but neither `git statusx` nor `git push origin main`.
pub open spec fn rule_matches(rule: Seq<char>, command: Seq<char>) -> bool {
    words(rule).len() > 0 && words(rule).is_prefix_of(words(command))
}

/// Matcher of allow rules against command lines, word by word.
#[derive(Debug, Clone, Copy, Default)]
pub struct BashArityDict {}

impl BashArityDict {
    pub fn new() -> (r: Self)
        ensures
            r == (BashArityDict {}),
    {
        BashArityDict {  }
    }

    /// Whether the allow rule `rule` covers `command` (see [`rule_matches`]).
    pub fn allow_rule_matches(&self, rule: &str, command: &str) -> (r: bool)
        ensures
            r == rule_matches(rule@, command@),
    {
        let rv = chars_of(rule);
        let cv = chars_of(command);
        let rs = word_spans_of(&rv);
        let cs = word_spans_of(&cv);
        let ghost rw = words(rv@);
        let ghost cw = words(cv@);
        proof {
            assert(rw.len() == rs@.len());
            assert(cw.len() == cs@.len());
        }
        if rs.len() == 0 || rs.len() > cs.len() {
            return false;
        }
        let mut k: usize = 0;
        while k < rs.len()
            invariant
                rs@.len() <= cs@.len(),
                rv@ == rule@,
                cv@ == command@,
                rw == words(rv@),
                cw == words(cv@),
                rs@.map_values(|p: (usize, usize)| crate::text::span_view(p)) == crate::text::word_spans(rv@),
                cs@.map_values(|p: (usize, usize)| crate::text::span_view(p)) == crate::text::word_spans(cv@),
                forall|m: int| 0 <= m < rs@.len() ==> rs@[m].0 < #[trigger] rs@[m].1 <= rv@.len(),
                forall|m: int| 0 <= m < cs@.len() ==> cs@[m].0 < #[trigger] cs@[m].1 <= cv@.len(),
                rw.len() == rs@.len(),
                cw.len() == cs@.len(),
                k <= rs@.len(),
                forall|m: int| 0 <= m < k ==> #[trigger] rw[m] == cw[m],
            decreases rs.len() - k,
        {
            let (a0, a1) = rs[k];
            let (b0, b1) = cs[k];
            proof {
                assert(rw[k as int] == rv@.subrange(a0 as int, a1 as int));
                assert(cw[k as int] == cv@.subrange(b0 as int, b1 as int));
            }
            if !segments_equal(&rv, a0, a1, &cv, b0, b1) {
                return false;
            }
            k = k + 1;
        }
        proof {
            assert(rw =~= cw.subrange(0, rw.len() as int));
        }
        true
    }
}

} // verus!

//! The one wildcard dialect of the event-filter grammar.
use vstd::prelude::*;

use crate::text;

verus! {

/// A pattern matches a text where `*` stands for any run of characters including
/// none and every other character is itself.
pub open spec fn globs(pattern: Seq<char>, text: Seq<char>) -> bool
    decreases pattern.len(), text.len(),
{
    if pattern.len() == 0 {
        text.len() == 0
    } else if pattern[0] == '*' {
        globs(pattern.skip(1), text) || (text.len() > 0 && globs(pattern, text.skip(1)))
    } else {
        text.len() > 0 && pattern[0] == text[0] && globs(pattern.skip(1), text.skip(1))
    }
}

/// Some run of a text may be left to a `*`: what follows the `*` matches from a
/// position past one already tried.
spec fn later(pattern: Seq<char>, text: Seq<char>, after: int, tried: int) -> bool {
    exists|k: int|
        tried < k <= text.len() && #[trigger] globs(pattern.skip(after), text.skip(k))
}

/// A `*` matches exactly where what follows it matches from some position on.
proof fn lemma_star(pattern: Seq<char>, text: Seq<char>, p: int, t: int)
    requires
        0 <= p < pattern.len(),
        pattern[p] == '*',
        0 <= t <= text.len(),
    ensures
        globs(pattern.skip(p), text.skip(t)) <==> globs(pattern.skip(p + 1), text.skip(t)) || later(
            pattern,
            text,
            p + 1,
            t,
        ),
    decreases text.len() - t,
{
    let rest = pattern.skip(p);
    assert(rest[0] == '*');
    assert(rest.skip(1) =~= pattern.skip(p + 1));
    if t < text.len() {
        assert(text.skip(t).skip(1) =~= text.skip(t + 1));
        lemma_star(pattern, text, p, t + 1);
        if later(pattern, text, p + 1, t) {
            let k = choose|k: int|
                t < k <= text.len() && #[trigger] globs(pattern.skip(p + 1), text.skip(k));
            if k > t + 1 {
                assert(later(pattern, text, p + 1, t + 1));
            }
        }
        if globs(pattern.skip(p + 1), text.skip(t + 1)) {
            assert(later(pattern, text, p + 1, t));
        }
        if later(pattern, text, p + 1, t + 1) {
            let k = choose|k: int|
                t + 1 < k <= text.len() && #[trigger] globs(pattern.skip(p + 1), text.skip(k));
            assert(later(pattern, text, p + 1, t));
        }
    }
}

/// A run of ordinary characters takes as many characters of the text, whatever
/// they are, and then what follows it has to match.
proof fn lemma_run(pattern: Seq<char>, text: Seq<char>, p: int, m: int, k: int)
    requires
        0 <= p,
        0 <= m,
        p + m <= pattern.len(),
        0 <= k <= text.len(),
        forall|i: int| p <= i < p + m ==> pattern[i] != '*',
        globs(pattern.skip(p), text.skip(k)),
    ensures
        k + m <= text.len(),
        globs(pattern.skip(p + m), text.skip(k + m)),
    decreases m,
{
    if m > 0 {
        assert(pattern.skip(p)[0] == pattern[p]);
        assert(pattern.skip(p).skip(1) =~= pattern.skip(p + 1));
        assert(text.skip(k).skip(1) =~= text.skip(k + 1));
        lemma_run(pattern, text, p + 1, m - 1, k + 1);
    }
}

/// A pattern matches nothing exactly where nothing but `*` is left of it.
proof fn lemma_empty(pattern: Seq<char>, p: int)
    requires
        0 <= p <= pattern.len(),
    ensures
        globs(pattern.skip(p), Seq::<char>::empty()) <==> forall|i: int|
            p <= i < pattern.len() ==> pattern[i] == '*',
    decreases pattern.len() - p,
{
    if p < pattern.len() {
        assert(pattern.skip(p)[0] == pattern[p]);
        assert(pattern.skip(p).skip(1) =~= pattern.skip(p + 1));
        lemma_empty(pattern, p + 1);
    }
}

/// Whether a pattern matches a text.
pub fn glob(pattern: &str, text: &str) -> (r: bool)
    ensures
        r == globs(pattern@, text@),
{
    let pat = text::chars_of(pattern);
    let txt = text::chars_of(text);
    let mut p: usize = 0;
    let mut t: usize = 0;
    let mut starred: bool = false;
    let mut star: usize = 0;
    let mut resume: usize = 0;
    proof {
        assert(pattern@.skip(0) =~= pattern@);
        assert(text@.skip(0) =~= text@);
    }
    while t < txt.len()
        invariant
            pat@ == pattern@,
            txt@ == text@,
            p <= pat@.len(),
            t <= txt@.len(),
            starred ==> {
                &&& star < p
                &&& pat@[star as int] == '*'
                &&& resume <= t
                &&& p - (star + 1) == t - resume
                &&& forall|i: int| star < i < p ==> pat@[i] != '*'
            },
            globs(pattern@, text@) <==> globs(pat@.skip(p as int), txt@.skip(t as int)) || (starred
                && later(pat@, txt@, star + 1, resume as int)),
        decreases
            (if starred {
                pat@.len() - star
            } else {
                (pat@.len() + 1) as int
            }),
            txt@.len() - resume,
            txt@.len() - t,
    {
        proof {
            if p < pat@.len() {
                assert(pat@.skip(p as int)[0] == pat@[p as int]);
                assert(pat@.skip(p as int).skip(1) =~= pat@.skip(p + 1));
            }
            assert(txt@.skip(t as int)[0] == txt@[t as int]);
            assert(txt@.skip(t as int).skip(1) =~= txt@.skip(t + 1));
        }
        if p < pat.len() && pat[p] == '*' {
            proof {
                if starred && later(pat@, txt@, star + 1, resume as int) {
                    // The run between the two stars was matched as early as it can
                    // be, so whatever a later start would leave to the second star
                    // it can take from here as well.
                    let k = choose|k: int|
                        resume < k <= txt@.len() && #[trigger] globs(
                            pat@.skip(star + 1),
                            txt@.skip(k),
                        );
                    let m = p - (star + 1);
                    lemma_run(pat@, txt@, star + 1, m, k);
                    lemma_absorb(pat@, txt@, p as int, t as int, k + m);
                }
                lemma_star(pat@, txt@, p as int, t as int);
            }
            starred = true;
            star = p;
            resume = t;
            p = p + 1;
        } else if p < pat.len() && pat[p] == txt[t] {
            p = p + 1;
            t = t + 1;
        } else if starred {
            proof {
                assert(!globs(pat@.skip(p as int), txt@.skip(t as int)));
                if later(pat@, txt@, star + 1, resume as int) {
                    let k = choose|k: int|
                        resume < k <= txt@.len() && #[trigger] globs(
                            pat@.skip(star + 1),
                            txt@.skip(k),
                        );
                    if k > resume + 1 {
                        assert(later(pat@, txt@, star + 1, resume + 1));
                    }
                }
                if later(pat@, txt@, star + 1, resume + 1) {
                    let k = choose|k: int|
                        resume + 1 < k <= txt@.len() && #[trigger] globs(
                            pat@.skip(star + 1),
                            txt@.skip(k),
                        );
                    assert(later(pat@, txt@, star + 1, resume as int));
                }
                if globs(pat@.skip(star + 1), txt@.skip(resume + 1)) {
                    assert(later(pat@, txt@, star + 1, resume as int));
                }
            }
            p = star + 1;
            resume = resume + 1;
            t = resume;
        } else {
            return false;
        }
    }
    proof {
        assert(txt@.skip(t as int) =~= Seq::<char>::empty());
        lemma_empty(pat@, p as int);
        if starred && later(pat@, txt@, star + 1, resume as int) {
            // A later start leaves fewer characters than the run already took.
            let k = choose|k: int|
                resume < k <= txt@.len() && #[trigger] globs(pat@.skip(star + 1), txt@.skip(k));
            lemma_run(pat@, txt@, star + 1, p - (star + 1), k);
        }
    }
    let mut i: usize = p;
    while i < pat.len()
        invariant
            p <= i <= pat@.len(),
            globs(pattern@, text@) <==> forall|j: int| p <= j < pat@.len() ==> pat@[j] == '*',
            forall|j: int| p <= j < i ==> pat@[j] == '*',
        decreases pat@.len() - i,
    {
        if pat[i] != '*' {
            return false;
        }
        i += 1;
    }
    true
}

/// What a `*` matches from one position it matches from every earlier one.
proof fn lemma_absorb(pattern: Seq<char>, text: Seq<char>, p: int, a: int, b: int)
    requires
        0 <= p < pattern.len(),
        pattern[p] == '*',
        0 <= a <= b <= text.len(),
        globs(pattern.skip(p), text.skip(b)),
    ensures
        globs(pattern.skip(p), text.skip(a)),
    decreases b - a,
{
    if a < b {
        assert(text.skip(b - 1).skip(1) =~= text.skip(b));
        assert(pattern.skip(p)[0] == '*');
        lemma_absorb(pattern, text, p, a, b - 1);
    }
}

/// A `*` stands for any run of characters including none: a pattern that begins with one
/// matches exactly where the rest of it matches from some position of the text on.
pub proof fn law_a_star_stands_for_any_run(rest: Seq<char>, text: Seq<char>)
    ensures
        globs(seq!['*'] + rest, text) <==> exists|k: int|
            0 <= k <= text.len() && globs(rest, #[trigger] text.skip(k)),
{
    let pattern = seq!['*'] + rest;
    lemma_star(pattern, text, 0, 0);
    assert(pattern.skip(0) =~= pattern);
    assert(pattern.skip(1) =~= rest);
    assert(text.skip(0) =~= text);
    if globs(pattern, text) && !globs(rest, text.skip(0)) {
        let k = choose|k: int|
            0 < k <= text.len() && #[trigger] globs(pattern.skip(1), text.skip(k));
        assert(globs(rest, text.skip(k)));
    }
    if exists|k: int| 0 <= k <= text.len() && globs(rest, #[trigger] text.skip(k)) {
        let k = choose|k: int| 0 <= k <= text.len() && globs(rest, #[trigger] text.skip(k));
        if k > 0 {
            assert(globs(pattern.skip(1), text.skip(k)));
        }
    }
}

/// Every other character stands for itself: a pattern that begins with one matches exactly
/// where the text begins with it and the rest matches the rest. A pattern that is used up
/// matches a text that is.
pub proof fn law_any_other_character_stands_for_itself(
    c: char,
    rest: Seq<char>,
    text: Seq<char>,
)
    requires
        c != '*',
    ensures
        globs(seq![c] + rest, text) <==> text.len() > 0 && text[0] == c && globs(
            rest,
            text.skip(1),
        ),
        globs(Seq::empty(), text) <==> text.len() == 0,
{
    assert((seq![c] + rest).skip(1) =~= rest);
}

/// A pattern without a `*` matches itself and nothing else.
pub proof fn law_a_pattern_without_a_star_is_itself(pattern: Seq<char>, text: Seq<char>)
    requires
        !pattern.contains('*'),
    ensures
        globs(pattern, text) <==> pattern == text,
    decreases pattern.len(),
{
    if pattern.len() > 0 {
        assert(pattern.contains(pattern[0]));
        let rest = pattern.skip(1);
        assert forall|i: int| 0 <= i < rest.len() implies #[trigger] rest[i] != '*' by {
            assert(pattern.contains(pattern[i + 1]));
        }
        if text.len() > 0 {
            law_a_pattern_without_a_star_is_itself(rest, text.skip(1));
            if pattern[0] == text[0] && rest == text.skip(1) {
                assert(pattern =~= seq![pattern[0]] + rest);
                assert(text =~= seq![text[0]] + text.skip(1));
            }
        }
    } else if text.len() == 0 {
        assert(pattern =~= text);
    }
}

} // verus!

//! Converting interpreter output into glyph units for a shaping host.

use crate::chars::chars_vec;
use vstd::prelude::*;

verus! {

/// One output unit handed to a shaping host: a character together with its
/// sequential cluster index among the kept characters.
#[derive(Clone, Copy, Debug, PartialEq, Eq)]
pub struct GlyphUnit {
    /// The character this unit renders.
    pub ch: char,
    /// The position of this unit among the kept characters, counted from 0.
    pub cluster: usize,
}

/// The characters of `s` kept for rendering: all but newlines.
pub open spec fn kept_chars(s: Seq<char>) -> Seq<char> {
    s.filter(|c: char| c != '\n')
}

/// The glyph units for output `s`: one unit per kept character, in order,
/// with cluster indices counted from zero.
pub open spec fn is_glyph_units(s: Seq<char>, r: Seq<GlyphUnit>) -> bool {
    &&& r.len() == kept_chars(s).len()
    &&& forall|i: int|
        0 <= i < r.len() ==> (#[trigger] r[i]).ch == kept_chars(s)[i] && r[i].cluster == i
}

/// How pushing one unit extends a unit sequence.
proof fn lemma_push_unit(r0: Seq<GlyphUnit>, u: GlyphUnit)
    ensures
        r0.push(u).len() == r0.len() + 1,
        forall|j: int| 0 <= j < r0.len() ==> #[trigger] r0.push(u)[j] == r0[j],
        r0.push(u)[r0.len() as int] == u,
{
}

/// Strip newlines from `s` and give each remaining character a sequential
/// cluster index starting at 0.
pub fn glyph_units_from_string(s: &str) -> (r: Vec<GlyphUnit>)
    ensures
        is_glyph_units(s@, r@),
{
    let cs = chars_vec(s);
    let mut r: Vec<GlyphUnit> = Vec::new();
    let mut i: usize = 0;
    proof {
        reveal(Seq::filter);
        assert(s@.subrange(0, 0) =~= Seq::<char>::empty());
        assert(is_glyph_units(s@.subrange(0, 0), r@));
    }
    while i < cs.len()
        invariant
            i <= cs.len(),
            cs@ == s@,
            is_glyph_units(s@.subrange(0, i as int), r@),
        decreases cs.len() - i,
    {
        let c = cs[i];
        let ghost prefix = s@.subrange(0, i as int);
        let ghost kept = kept_chars(prefix);
        proof {
            reveal(Seq::filter);
            assert(s@.subrange(0, i + 1).drop_last() =~= prefix);
            assert(s@.subrange(0, i + 1).last() == c);
        }
        if c != '\n' {
            let ghost r0 = r@;
            let cl = r.len();
            r.push(GlyphUnit { ch: c, cluster: cl });
            proof {
                reveal(Seq::filter);
                assert(kept_chars(s@.subrange(0, i + 1)) == kept.push(c));
                let u = (GlyphUnit { ch: c, cluster: cl });
                lemma_push_unit(r0, u);
                assert(r@ == r0.push(u));
                assert forall|j: int|
                    0 <= j < r@.len() implies (#[trigger] r@[j]).ch == kept.push(c)[j]
                    && r@[j].cluster == j by {
                    if j < r0.len() {
                        assert(r@[j] == r0[j]);
                        assert(kept.push(c)[j] == kept[j]);
                        assert(r0[j].ch == kept[j] && r0[j].cluster == j);
                    } else {
                        assert(r@[j] == u);
                        assert(kept.push(c)[j] == c);
                    }
                }
                assert(is_glyph_units(s@.subrange(0, i + 1), r@));
            }
        } else {
            proof {
                reveal(Seq::filter);
                assert(kept_chars(s@.subrange(0, i + 1)) == kept);
                assert(is_glyph_units(s@.subrange(0, i + 1), r@));
            }
        }
        i = i + 1;
    }
    proof {
        assert(s@.subrange(0, s@.len() as int) =~= s@);
    }
    r
}

} // verus!

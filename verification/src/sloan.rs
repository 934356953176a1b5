//! The SLOAN notation for a score: one letter per trait, keyed on
//! whether each percentile lies above the middle of its scale.
//!
//! The five positions stand for social or reserved, limbic or calm,
//! organized or unstructured, accommodating or egocentric, and
//! inquisitive or non-curious.

use crate::scores::Scores;
use vstd::prelude::*;

verus! {

/// A five-letter personality code.
#[derive(Clone, Copy, Debug, PartialEq, Eq, Structural)]
pub enum Sloan {
    Rcoai,
    Rcoan,
    Rcoei,
    Rcoen,
    Rcuai,
    Rcuan,
    Rcuei,
    Rcuen,
    Rloai,
    Rloan,
    Rloei,
    Rloen,
    Rluai,
    Rluan,
    Rluei,
    Rluen,
    Scoai,
    Scoan,
    Scoei,
    Scoen,
    Scuai,
    Scuan,
    Scuei,
    Scuen,
    Sloai,
    Sloan,
    Sloei,
    Sloen,
    Sluai,
    Sluan,
    Sluei,
    Sluen,
}

/// The code a score maps to: each letter is decided by whether its
/// trait's percentile exceeds the exact middle of the scale.
pub open spec fn spec_from_scores(sc: Scores) -> Sloan {
    let social = sc.e > 5000;
    let limbic = sc.n > 5000;
    let organized = sc.c > 5000;
    let accommodating = sc.a > 5000;
    let inquisitive = sc.o > 5000;
    if social {
        if limbic {
            if organized {
                if accommodating {
                    if inquisitive {
                        Sloan::Sloai
                    } else {
                        Sloan::Sloan
                    }
                } else {
                    if inquisitive {
                        Sloan::Sloei
                    } else {
                        Sloan::Sloen
                    }
                }
            } else {
                if accommodating {
                    if inquisitive {
                        Sloan::Sluai
                    } else {
                        Sloan::Sluan
                    }
                } else {
                    if inquisitive {
                        Sloan::Sluei
                    } else {
                        Sloan::Sluen
                    }
                }
            }
        } else {
            if organized {
                if accommodating {
                    if inquisitive {
                        Sloan::Scoai
                    } else {
                        Sloan::Scoan
                    }
                } else {
                    if inquisitive {
                        Sloan::Scoei
                    } else {
                        Sloan::Scoen
                    }
                }
            } else {
                if accommodating {
                    if inquisitive {
                        Sloan::Scuai
                    } else {
                        Sloan::Scuan
                    }
                } else {
                    if inquisitive {
                        Sloan::Scuei
                    } else {
                        Sloan::Scuen
                    }
                }
            }
        }
    } else {
        if limbic {
            if organized {
                if accommodating {
                    if inquisitive {
                        Sloan::Rloai
                    } else {
                        Sloan::Rloan
                    }
                } else {
                    if inquisitive {
                        Sloan::Rloei
                    } else {
                        Sloan::Rloen
                    }
                }
            } else {
                if accommodating {
                    if inquisitive {
                        Sloan::Rluai
                    } else {
                        Sloan::Rluan
                    }
                } else {
                    if inquisitive {
                        Sloan::Rluei
                    } else {
                        Sloan::Rluen
                    }
                }
            }
        } else {
            if organized {
                if accommodating {
                    if inquisitive {
                        Sloan::Rcoai
                    } else {
                        Sloan::Rcoan
                    }
                } else {
                    if inquisitive {
                        Sloan::Rcoei
                    } else {
                        Sloan::Rcoen
                    }
                }
            } else {
                if accommodating {
                    if inquisitive {
                        Sloan::Rcuai
                    } else {
                        Sloan::Rcuan
                    }
                } else {
                    if inquisitive {
                        Sloan::Rcuei
                    } else {
                        Sloan::Rcuen
                    }
                }
            }
        }
    }
}

impl Sloan {
    /// Maps a score to its code.
    pub fn from_scores(scores: Scores) -> (r: Sloan)
        ensures
            r == spec_from_scores(scores),
    {
        let social = scores.e > 5000;
        let limbic = scores.n > 5000;
        let organized = scores.c > 5000;
        let accommodating = scores.a > 5000;
        let inquisitive = scores.o > 5000;
        match (social, limbic, organized, accommodating, inquisitive) {
            (false, false, false, false, false) => Sloan::Rcuen,
            (false, false, false, false, true) => Sloan::Rcuei,
            (false, false, false, true, false) => Sloan::Rcuan,
            (false, false, false, true, true) => Sloan::Rcuai,
            (false, false, true, false, false) => Sloan::Rcoen,
            (false, false, true, false, true) => Sloan::Rcoei,
            (false, false, true, true, false) => Sloan::Rcoan,
            (false, false, true, true, true) => Sloan::Rcoai,
            (false, true, false, false, false) => Sloan::Rluen,
            (false, true, false, false, true) => Sloan::Rluei,
            (false, true, false, true, false) => Sloan::Rluan,
            (false, true, false, true, true) => Sloan::Rluai,
            (false, true, true, false, false) => Sloan::Rloen,
            (false, true, true, false, true) => Sloan::Rloei,
            (false, true, true, true, false) => Sloan::Rloan,
            (false, true, true, true, true) => Sloan::Rloai,
            (true, false, false, false, false) => Sloan::Scuen,
            (true, false, false, false, true) => Sloan::Scuei,
            (true, false, false, true, false) => Sloan::Scuan,
            (true, false, false, true, true) => Sloan::Scuai,
            (true, false, true, false, false) => Sloan::Scoen,
            (true, false, true, false, true) => Sloan::Scoei,
            (true, false, true, true, false) => Sloan::Scoan,
            (true, false, true, true, true) => Sloan::Scoai,
            (true, true, false, false, false) => Sloan::Sluen,
            (true, true, false, false, true) => Sloan::Sluei,
            (true, true, false, true, false) => Sloan::Sluan,
            (true, true, false, true, true) => Sloan::Sluai,
            (true, true, true, false, false) => Sloan::Sloen,
            (true, true, true, false, true) => Sloan::Sloei,
            (true, true, true, true, false) => Sloan::Sloan,
            (true, true, true, true, true) => Sloan::Sloai,
        }
    }

    /// The code's meaning, one word per letter.
    pub fn summary(&self) -> (r: &'static str)
        ensures
            r@ == spec_summary(*self),
    {
        match self {
            Sloan::Rcoai => "reserved, calm, organized, accommodating, inquisitive",
            Sloan::Rcoan => "reserved, calm, organized, accommodating, non-curious",
            Sloan::Rcoei => "reserved, calm, organized, egocentric, inquisitive",
            Sloan::Rcoen => "reserved, calm, organized, egocentric, non-curious",
            Sloan::Rcuai => "reserved, calm, unstructured, accommodating, inquisitive",
            Sloan::Rcuan => "reserved, calm, unstructured, accommodating, non-curious",
            Sloan::Rcuei => "reserved, calm, unstructured, egocentric, inquisitive",
            Sloan::Rcuen => "reserved, calm, unstructured, egocentric, non-curious",
            Sloan::Rloai => "reserved, limbic, organized, accommodating, inquisitive",
            Sloan::Rloan => "reserved, limbic, organized, accommodating, non-curious",
            Sloan::Rloei => "reserved, limbic, organized, egocentric, inquisitive",
            Sloan::Rloen => "reserved, limbic, organized, egocentric, non-curious",
            Sloan::Rluai => "reserved, limbic, unstructured, accommodating, inquisitive",
            Sloan::Rluan => "reserved, limbic, unstructured, accommodating, non-curious",
            Sloan::Rluei => "reserved, limbic, unstructured, egocentric, inquisitive",
            Sloan::Rluen => "reserved, limbic, unstructured, egocentric, non-curious",
            Sloan::Scoai => "social, calm, organized, accommodating, inquisitive",
            Sloan::Scoan => "social, calm, organized, accommodating, non-curious",
            Sloan::Scoei => "social, calm, organized, egocentric, inquisitive",
            Sloan::Scoen => "social, calm, organized, egocentric, non-curious",
            Sloan::Scuai => "social, calm, unstructured, accommodating, inquisitive",
            Sloan::Scuan => "social, calm, unstructured, accommodating, non-curious",
            Sloan::Scuei => "social, calm, unstructured, egocentric, inquisitive",
            Sloan::Scuen => "social, calm, unstructured, egocentric, non-curious",
            Sloan::Sloai => "social, limbic, organized, accommodating, inquisitive",
            Sloan::Sloan => "social, limbic, organized, accommodating, non-curious",
            Sloan::Sloei => "social, limbic, organized, egocentric, inquisitive",
            Sloan::Sloen => "social, limbic, organized, egocentric, non-curious",
            Sloan::Sluai => "social, limbic, unstructured, accommodating, inquisitive",
            Sloan::Sluan => "social, limbic, unstructured, accommodating, non-curious",
            Sloan::Sluei => "social, limbic, unstructured, egocentric, inquisitive",
            Sloan::Sluen => "social, limbic, unstructured, egocentric, non-curious",
        }
    }
}

/// The words of each code, one per letter.
pub open spec fn spec_summary(s: Sloan) -> Seq<char> {
    match s {
        Sloan::Rcoai => "reserved, calm, organized, accommodating, inquisitive"@,
        Sloan::Rcoan => "reserved, calm, organized, accommodating, non-curious"@,
        Sloan::Rcoei => "reserved, calm, organized, egocentric, inquisitive"@,
        Sloan::Rcoen => "reserved, calm, organized, egocentric, non-curious"@,
        Sloan::Rcuai => "reserved, calm, unstructured, accommodating, inquisitive"@,
        Sloan::Rcuan => "reserved, calm, unstructured, accommodating, non-curious"@,
        Sloan::Rcuei => "reserved, calm, unstructured, egocentric, inquisitive"@,
        Sloan::Rcuen => "reserved, calm, unstructured, egocentric, non-curious"@,
        Sloan::Rloai => "reserved, limbic, organized, accommodating, inquisitive"@,
        Sloan::Rloan => "reserved, limbic, organized, accommodating, non-curious"@,
        Sloan::Rloei => "reserved, limbic, organized, egocentric, inquisitive"@,
        Sloan::Rloen => "reserved, limbic, organized, egocentric, non-curious"@,
        Sloan::Rluai => "reserved, limbic, unstructured, accommodating, inquisitive"@,
        Sloan::Rluan => "reserved, limbic, unstructured, accommodating, non-curious"@,
        Sloan::Rluei => "reserved, limbic, unstructured, egocentric, inquisitive"@,
        Sloan::Rluen => "reserved, limbic, unstructured, egocentric, non-curious"@,
        Sloan::Scoai => "social, calm, organized, accommodating, inquisitive"@,
        Sloan::Scoan => "social, calm, organized, accommodating, non-curious"@,
        Sloan::Scoei => "social, calm, organized, egocentric, inquisitive"@,
        Sloan::Scoen => "social, calm, organized, egocentric, non-curious"@,
        Sloan::Scuai => "social, calm, unstructured, accommodating, inquisitive"@,
        Sloan::Scuan => "social, calm, unstructured, accommodating, non-curious"@,
        Sloan::Scuei => "social, calm, unstructured, egocentric, inquisitive"@,
        Sloan::Scuen => "social, calm, unstructured, egocentric, non-curious"@,
        Sloan::Sloai => "social, limbic, organized, accommodating, inquisitive"@,
        Sloan::Sloan => "social, limbic, organized, accommodating, non-curious"@,
        Sloan::Sloei => "social, limbic, organized, egocentric, inquisitive"@,
        Sloan::Sloen => "social, limbic, organized, egocentric, non-curious"@,
        Sloan::Sluai => "social, limbic, unstructured, accommodating, inquisitive"@,
        Sloan::Sluan => "social, limbic, unstructured, accommodating, non-curious"@,
        Sloan::Sluei => "social, limbic, unstructured, egocentric, inquisitive"@,
        Sloan::Sluen => "social, limbic, unstructured, egocentric, non-curious"@,
    }
}

} // verus!

//! The mood named by the emotional state's thresholds.
use vstd::prelude::*;

verus! {

/// The mood for the state's threshold tests: valence above 0.3, valence
/// below -0.3, arousal above 0.6.
pub open spec fn mood(high_valence: bool, low_valence: bool, high_arousal: bool) -> Seq<char> {
    if high_valence {
        if high_arousal {
            "excited"@
        } else {
            "content"@
        }
    } else if low_valence {
        if high_arousal {
            "anxious"@
        } else {
            "melancholy"@
        }
    } else {
        "neutral"@
    }
}

/// The mood label for the outcome of the state's threshold tests: content
/// or excited when valence is high, melancholy or anxious when it is low
/// (by arousal), neutral otherwise.
pub fn mood_label(high_valence: bool, low_valence: bool, high_arousal: bool) -> (s: &'static str)
    ensures
        s@ == mood(high_valence, low_valence, high_arousal),
{
    if high_valence {
        if high_arousal {
            "excited"
        } else {
            "content"
        }
    } else if low_valence {
        if high_arousal {
            "anxious"
        } else {
            "melancholy"
        }
    } else {
        "neutral"
    }
}

} // verus!

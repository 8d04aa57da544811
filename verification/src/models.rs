//! The colour schemes a picture can be drawn in, and their names.

use vstd::prelude::*;
use vstd::utf8::{encode_utf8, encode_utf8_decode_utf8};

verus! {

/// How an escape count becomes a colour.
#[derive(Copy, Clone, Debug, PartialEq, Eq, Structural)]
pub enum PlotColorSchema {
    LinearGradient,
    CubicPolynomial,
    HueRotation,
    LogarithmicMapping,
    Custom,
    Palette,
}

/// Whether two string slices hold the same text.
fn same_text(a: &str, b: &str) -> (same: bool)
    ensures
        same == (a@ == b@),
{
    let x = a.as_bytes();
    let y = b.as_bytes();
    proof {
        encode_utf8_decode_utf8(a@);
        encode_utf8_decode_utf8(b@);
    }
    if x.len() != y.len() {
        return false;
    }
    let mut i: usize = 0;
    while i < x.len()
        invariant
            i <= x@.len(),
            x@.len() == y@.len(),
            x@ == encode_utf8(a@),
            y@ == encode_utf8(b@),
            forall|k: int| 0 <= k < i ==> x@[k] == y@[k],
        decreases x@.len() - i,
    {
        if x[i] != y[i] {
            return false;
        }
        i += 1;
    }
    assert(x@ =~= y@);
    true
}

impl PlotColorSchema {
    /// The name by which a scheme is selected and printed.
    pub open spec fn name(self) -> Seq<char> {
        match self {
            PlotColorSchema::Palette => "palette"@,
            PlotColorSchema::Custom => "custom"@,
            PlotColorSchema::HueRotation => "hue"@,
            PlotColorSchema::LogarithmicMapping => "log"@,
            PlotColorSchema::CubicPolynomial => "cubic"@,
            PlotColorSchema::LinearGradient => "linear"@,
        }
    }

    /// The scheme a text selects. A text that names no scheme selects the
    /// palette.
    pub open spec fn named(text: Seq<char>) -> PlotColorSchema {
        if text == "custom"@ {
            PlotColorSchema::Custom
        } else if text == "hue"@ {
            PlotColorSchema::HueRotation
        } else if text == "log"@ {
            PlotColorSchema::LogarithmicMapping
        } else if text == "cubic"@ {
            PlotColorSchema::CubicPolynomial
        } else if text == "linear"@ {
            PlotColorSchema::LinearGradient
        } else {
            PlotColorSchema::Palette
        }
    }

    /// Reads a scheme from its name. Never fails: an unknown name gives the
    /// palette.
    pub fn from_str(s: &str) -> (parsed: Result<PlotColorSchema, ()>)
        ensures
            parsed == Ok::<PlotColorSchema, ()>(PlotColorSchema::named(s@)),
    {
        if same_text(s, "custom") {
            Ok(PlotColorSchema::Custom)
        } else if same_text(s, "hue") {
            Ok(PlotColorSchema::HueRotation)
        } else if same_text(s, "log") {
            Ok(PlotColorSchema::LogarithmicMapping)
        } else if same_text(s, "cubic") {
            Ok(PlotColorSchema::CubicPolynomial)
        } else if same_text(s, "linear") {
            Ok(PlotColorSchema::LinearGradient)
        } else {
            Ok(PlotColorSchema::Palette)
        }
    }

    /// The scheme's name as an owned string.
    pub fn to_string(&self) -> (text: String)
        ensures
            text@ == self.name(),
    {
        match self {
            PlotColorSchema::Palette => "palette".to_owned(),
            PlotColorSchema::Custom => "custom".to_owned(),
            PlotColorSchema::HueRotation => "hue".to_owned(),
            PlotColorSchema::LogarithmicMapping => "log".to_owned(),
            PlotColorSchema::CubicPolynomial => "cubic".to_owned(),
            PlotColorSchema::LinearGradient => "linear".to_owned(),
        }
    }

    /// Every scheme is read back from its own name.
    pub proof fn lemma_name_selects_scheme(self)
        ensures
            PlotColorSchema::named(self.name()) == self,
    {
        reveal_strlit("palette");
        reveal_strlit("custom");
        reveal_strlit("hue");
        reveal_strlit("log");
        reveal_strlit("cubic");
        reveal_strlit("linear");
        assert("palette"@.len() == 7);
        assert("custom"@.len() == 6);
        assert("hue"@.len() == 3);
        assert("log"@.len() == 3);
        assert("cubic"@.len() == 5);
        assert("linear"@.len() == 6);
        assert("hue"@[0] == 'h');
        assert("log"@[0] == 'l');
        assert("custom"@[0] == 'c');
        assert("linear"@[0] == 'l');
    }
}

impl std::str::FromStr for PlotColorSchema {
    type Err = ();

    fn from_str(s: &str) -> (parsed: Result<Self, Self::Err>)
        ensures
            parsed == Ok::<PlotColorSchema, ()>(PlotColorSchema::named(s@)),
    {
        PlotColorSchema::from_str(s)
    }
}

} // verus!

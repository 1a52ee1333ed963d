//! Palette registry: the RGB color type, the four named Nord palettes, and
//! the resolution of scheme names to their constant color lists.

use vstd::prelude::*;

verus! {

/// An RGB color: three independent 8-bit channels, no alpha.
/// Equality is exact per-channel match.
#[derive(Clone, Copy, Debug, PartialEq, Eq, Structural)]
pub struct Color {
    pub r: u8,
    pub g: u8,
    pub b: u8,
}

/// The `frost` palette, in declaration order.
pub open spec fn frost_seq() -> Seq<Color> {
    seq![
        Color { r: 143, g: 188, b: 187 },
        Color { r: 136, g: 192, b: 208 },
        Color { r: 129, g: 161, b: 193 },
        Color { r: 94, g: 129, b: 172 },
    ]
}

/// The `polar_night` palette, in declaration order.
pub open spec fn polar_night_seq() -> Seq<Color> {
    seq![
        Color { r: 46, g: 52, b: 64 },
        Color { r: 59, g: 66, b: 82 },
        Color { r: 67, g: 76, b: 94 },
        Color { r: 76, g: 86, b: 106 },
    ]
}

/// The `snow_storm` palette, in declaration order.
pub open spec fn snow_storm_seq() -> Seq<Color> {
    seq![
        Color { r: 216, g: 222, b: 233 },
        Color { r: 229, g: 233, b: 240 },
        Color { r: 236, g: 239, b: 244 },
    ]
}

/// The `aurora` palette, in declaration order.
pub open spec fn aurora_seq() -> Seq<Color> {
    seq![
        Color { r: 191, g: 97, b: 106 },
        Color { r: 208, g: 135, b: 112 },
        Color { r: 235, g: 203, b: 139 },
        Color { r: 163, g: 190, b: 140 },
        Color { r: 180, g: 142, b: 173 },
    ]
}

/// The `frost` palette as a vector.
pub fn frost_colors() -> (v: Vec<Color>)
    ensures
        v@ == frost_seq(),
{
    let mut v: Vec<Color> = Vec::new();
    v.push(Color { r: 143, g: 188, b: 187 });
    v.push(Color { r: 136, g: 192, b: 208 });
    v.push(Color { r: 129, g: 161, b: 193 });
    v.push(Color { r: 94, g: 129, b: 172 });
    proof {
        assert(v@ =~= frost_seq());
    }
    v
}

/// The `polar_night` palette as a vector.
pub fn polar_night_colors() -> (v: Vec<Color>)
    ensures
        v@ == polar_night_seq(),
{
    let mut v: Vec<Color> = Vec::new();
    v.push(Color { r: 46, g: 52, b: 64 });
    v.push(Color { r: 59, g: 66, b: 82 });
    v.push(Color { r: 67, g: 76, b: 94 });
    v.push(Color { r: 76, g: 86, b: 106 });
    proof {
        assert(v@ =~= polar_night_seq());
    }
    v
}

/// The `snow_storm` palette as a vector.
pub fn snow_storm_colors() -> (v: Vec<Color>)
    ensures
        v@ == snow_storm_seq(),
{
    let mut v: Vec<Color> = Vec::new();
    v.push(Color { r: 216, g: 222, b: 233 });
    v.push(Color { r: 229, g: 233, b: 240 });
    v.push(Color { r: 236, g: 239, b: 244 });
    proof {
        assert(v@ =~= snow_storm_seq());
    }
    v
}

/// The `aurora` palette as a vector.
pub fn aurora_colors() -> (v: Vec<Color>)
    ensures
        v@ == aurora_seq(),
{
    let mut v: Vec<Color> = Vec::new();
    v.push(Color { r: 191, g: 97, b: 106 });
    v.push(Color { r: 208, g: 135, b: 112 });
    v.push(Color { r: 235, g: 203, b: 139 });
    v.push(Color { r: 163, g: 190, b: 140 });
    v.push(Color { r: 180, g: 142, b: 173 });
    proof {
        assert(v@ =~= aurora_seq());
    }
    v
}

/// True exactly for the four recognized scheme identifiers.
pub open spec fn is_scheme_name(s: Seq<char>) -> bool {
    ||| s == "frost"@
    ||| s == "polar_night"@
    ||| s == "snow_storm"@
    ||| s == "aurora"@
}

/// The color sequence a recognized scheme name resolves to.
pub open spec fn palette_of(s: Seq<char>) -> Seq<Color>
    recommends
        is_scheme_name(s),
{
    if s == "frost"@ {
        frost_seq()
    } else if s == "polar_night"@ {
        polar_night_seq()
    } else if s == "snow_storm"@ {
        snow_storm_seq()
    } else {
        aurora_seq()
    }
}

/// Errors of the palette registry and the recolor engine.
#[derive(Clone, Debug, PartialEq, Eq)]
pub enum RecolorError {
    /// A scheme identifier did not match any recognized name; carries the
    /// offending string.
    UnknownScheme(String),
    /// The engine was handed zero candidate colors, so no nearest color
    /// exists.
    EmptyCandidateSet,
}

/// A selected color scheme carrying its resolved color list.
#[derive(Clone, Debug)]
pub enum Scheme {
    Frost(Vec<Color>),
    PolarNight(Vec<Color>),
    SnowStorm(Vec<Color>),
    Aurora(Vec<Color>),
}

/// Character-by-character string equality, so that contracts can speak of
/// the compared views.
pub fn str_eq(a: &str, b: &str) -> (r: bool)
    ensures
        r == (a@ == b@),
{
    let alen = a.unicode_len();
    let blen = b.unicode_len();
    if alen != blen {
        return false;
    }
    let mut i: usize = 0;
    while i < alen
        invariant
            alen == a@.len(),
            alen == b@.len(),
            i <= alen,
            forall|j: int| 0 <= j < i ==> a@[j] == b@[j],
        decreases alen - i,
    {
        if a.get_char(i) != b.get_char(i) {
            return false;
        }
        i += 1;
    }
    proof {
        assert(a@ =~= b@);
    }
    true
}

impl Scheme {
    /// The color list this scheme carries.
    pub open spec fn colors_spec(&self) -> Seq<Color> {
        match self {
            Scheme::Frost(c) => c@,
            Scheme::PolarNight(c) => c@,
            Scheme::SnowStorm(c) => c@,
            Scheme::Aurora(c) => c@,
        }
    }

    /// A scheme is well formed when its variant carries exactly the palette
    /// it stands for.
    pub open spec fn wf(&self) -> bool {
        match self {
            Scheme::Frost(c) => c@ == frost_seq(),
            Scheme::PolarNight(c) => c@ == polar_night_seq(),
            Scheme::SnowStorm(c) => c@ == snow_storm_seq(),
            Scheme::Aurora(c) => c@ == aurora_seq(),
        }
    }

    /// Borrow the color list this scheme carries.
    pub fn colors(&self) -> (c: &Vec<Color>)
        ensures
            c@ == self.colors_spec(),
    {
        match self {
            Scheme::Frost(c) => c,
            Scheme::PolarNight(c) => c,
            Scheme::SnowStorm(c) => c,
            Scheme::Aurora(c) => c,
        }
    }

    /// Resolve a scheme identifier: exactly the four recognized names
    /// succeed, and the resolved scheme carries its palette's colors; any
    /// other identifier is rejected with `UnknownScheme` carrying it.
    pub fn from_str(s: &str) -> (r: Result<Scheme, RecolorError>)
        ensures
            r is Ok <==> is_scheme_name(s@),
            r matches Ok(sch) ==> sch.wf() && sch.colors_spec() == palette_of(s@),
            s@ == "frost"@ ==> (r matches Ok(sch) && sch is Frost),
            s@ == "polar_night"@ ==> (r matches Ok(sch) && sch is PolarNight),
            s@ == "snow_storm"@ ==> (r matches Ok(sch) && sch is SnowStorm),
            s@ == "aurora"@ ==> (r matches Ok(sch) && sch is Aurora),
            r matches Err(e) ==> (e matches RecolorError::UnknownScheme(n) && n@ == s@),
    {
        proof {
            // The four identifiers have pairwise distinct lengths, so the
            // revealed literals are pairwise distinct.
            reveal_strlit("frost");
            reveal_strlit("polar_night");
            reveal_strlit("snow_storm");
            reveal_strlit("aurora");
            assert("frost"@.len() == 5);
            assert("polar_night"@.len() == 11);
            assert("snow_storm"@.len() == 10);
            assert("aurora"@.len() == 6);
        }
        if str_eq(s, "frost") {
            Ok(Scheme::Frost(frost_colors()))
        } else if str_eq(s, "polar_night") {
            Ok(Scheme::PolarNight(polar_night_colors()))
        } else if str_eq(s, "snow_storm") {
            Ok(Scheme::SnowStorm(snow_storm_colors()))
        } else if str_eq(s, "aurora") {
            Ok(Scheme::Aurora(aurora_colors()))
        } else {
            Err(RecolorError::UnknownScheme(s.to_owned()))
        }
    }
}

/// The concatenation of the color lists of a sequence of schemes, in
/// order, with duplicates across schemes preserved.
pub open spec fn schemes_candidates(schemes: Seq<Scheme>) -> Seq<Color>
    decreases schemes.len(),
{
    if schemes.len() == 0 {
        Seq::empty()
    } else {
        schemes_candidates(schemes.drop_last()) + schemes.last().colors_spec()
    }
}

/// The candidate set a sequence of recognized scheme names resolves to: the
/// concatenation of their palettes, in the order the names were given,
/// without deduplication.
pub open spec fn selection_candidates(names: Seq<String>) -> Seq<Color>
    recommends
        forall|i: int| 0 <= i < names.len() ==> is_scheme_name(#[trigger] names[i]@),
    decreases names.len(),
{
    if names.len() == 0 {
        Seq::empty()
    } else {
        selection_candidates(names.drop_last()) + palette_of(names.last()@)
    }
}

/// Concatenate the color lists of the given schemes into one candidate
/// set, in order and without deduplication.
pub fn candidate_colors(schemes: &Vec<Scheme>) -> (v: Vec<Color>)
    ensures
        v@ == schemes_candidates(schemes@),
{
    let mut v: Vec<Color> = Vec::new();
    let mut i: usize = 0;
    proof {
        assert(schemes@.take(0) =~= Seq::<Scheme>::empty());
    }
    while i < schemes.len()
        invariant
            i <= schemes@.len(),
            v@ == schemes_candidates(schemes@.take(i as int)),
        decreases schemes@.len() - i,
    {
        let cs = schemes[i].colors();
        let mut k: usize = 0;
        while k < cs.len()
            invariant
                i < schemes@.len(),
                k <= cs@.len(),
                cs@ == schemes@[i as int].colors_spec(),
                v@ == schemes_candidates(schemes@.take(i as int)) + cs@.take(k as int),
            decreases cs@.len() - k,
        {
            v.push(cs[k]);
            k += 1;
            proof {
                assert(cs@.take(k as int) =~= cs@.take(k - 1).push(cs@[k - 1]));
                assert(v@ =~= schemes_candidates(schemes@.take(i as int)) + cs@.take(k as int));
            }
        }
        i += 1;
        proof {
            let prefix = schemes@.take(i as int);
            assert(prefix.drop_last() =~= schemes@.take(i - 1));
            assert(prefix.last() == schemes@[i - 1]);
            assert(cs@.take(cs@.len() as int) =~= cs@);
        }
    }
    proof {
        assert(schemes@.take(schemes@.len() as int) =~= schemes@);
    }
    v
}

/// Resolve a selection of scheme names to one candidate set: the
/// concatenation of the named palettes in the given order. Succeeds exactly
/// when every name is recognized; otherwise rejects the first unrecognized
/// name with `UnknownScheme` carrying it.
pub fn resolve_selection(names: &Vec<String>) -> (r: Result<Vec<Color>, RecolorError>)
    ensures
        r is Ok <==> (forall|i: int| 0 <= i < names@.len() ==> is_scheme_name(
            #[trigger] names@[i]@,
        )),
        r matches Ok(v) ==> v@ == selection_candidates(names@),
        r matches Err(e) ==> (e matches RecolorError::UnknownScheme(n) && exists|i: int|
            0 <= i < names@.len() && n@ == names@[i]@ && !is_scheme_name(names@[i]@) && (forall|
                j: int,
            |
                0 <= j < i ==> is_scheme_name(#[trigger] names@[j]@))),
{
    let mut v: Vec<Color> = Vec::new();
    let mut i: usize = 0;
    proof {
        assert(names@.take(0) =~= Seq::<String>::empty());
    }
    while i < names.len()
        invariant
            i <= names@.len(),
            forall|j: int| 0 <= j < i ==> is_scheme_name(#[trigger] names@[j]@),
            v@ == selection_candidates(names@.take(i as int)),
        decreases names@.len() - i,
    {
        let sch = match Scheme::from_str(names[i].as_str()) {
            Ok(sch) => sch,
            Err(e) => {
                return Err(e);
            },
        };
        let cs = sch.colors();
        let mut k: usize = 0;
        while k < cs.len()
            invariant
                i < names@.len(),
                k <= cs@.len(),
                cs@ == palette_of(names@[i as int]@),
                v@ == selection_candidates(names@.take(i as int)) + cs@.take(k as int),
            decreases cs@.len() - k,
        {
            v.push(cs[k]);
            k += 1;
            proof {
                assert(cs@.take(k as int) =~= cs@.take(k - 1).push(cs@[k - 1]));
                assert(v@ =~= selection_candidates(names@.take(i as int)) + cs@.take(k as int));
            }
        }
        i += 1;
        proof {
            let prefix = names@.take(i as int);
            assert(prefix.drop_last() =~= names@.take(i - 1));
            assert(prefix.last() == names@[i - 1]);
            assert(cs@.take(cs@.len() as int) =~= cs@);
        }
    }
    proof {
        assert(names@.take(names@.len() as int) =~= names@);
    }
    Ok(v)
}

} // verus!

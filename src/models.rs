use vstd::prelude::*;

verus! {

/// Relies on `String`'s `FromIterator<&char>`: the string of exactly these
/// characters.
#[verifier::external_body]
pub(crate) fn string_of_chars(cs: &Vec<char>) -> (r: String)
    ensures
        r@ == cs@,
{
    String::from_iter(cs.iter())
}

/// A route declaration found in a source file.
#[derive(Debug, Clone)]
pub struct Route {
    pub path: String,
    pub method: String,
    pub file_path: String,
    pub line_number: usize,
}

/// The mathematical content of a [`Route`].
pub struct RouteView {
    pub path: Seq<char>,
    pub method: Seq<char>,
    pub file_path: Seq<char>,
    pub line_number: nat,
}

impl View for Route {
    type V = RouteView;

    open spec fn view(&self) -> RouteView {
        RouteView {
            path: self.path@,
            method: self.method@,
            file_path: self.file_path@,
            line_number: self.line_number as nat,
        }
    }
}

impl Route {
    /// A field-by-field copy of the route.
    pub fn duplicate(&self) -> (r: Route)
        ensures
            r == *self,
    {
        Route {
            path: self.path.clone(),
            method: self.method.clone(),
            file_path: self.file_path.clone(),
            line_number: self.line_number,
        }
    }
}

/// How closely two paths resemble each other, as the ratio
/// `matched / total`; the percentage is `100 * matched / total`, and zero
/// when `total` is zero.
#[derive(Debug, Clone, Copy, PartialEq, Eq, Structural)]
pub struct Similarity {
    pub matched: usize,
    pub total: usize,
}

impl Similarity {
    /// The ratio of a full match, 100 percent.
    pub fn full() -> (r: Similarity)
        ensures
            r.is_full(),
            r.matched == 1,
            r.total == 1,
    {
        Similarity { matched: 1, total: 1 }
    }

    /// The ratio is 100 percent.
    pub open spec fn is_full(self) -> bool {
        self.total > 0 && self.matched == self.total
    }

    /// The percentage exceeds `threshold_bp` basis points (hundredths of a
    /// percent): `100 * matched / total > threshold_bp / 100`.
    pub open spec fn spec_exceeds(self, threshold_bp: u32) -> bool {
        self.matched * 10000 > threshold_bp * self.total
    }

    pub fn exceeds(self, threshold_bp: u32) -> (r: bool)
        ensures
            r == self.spec_exceeds(threshold_bp),
    {
        assert((threshold_bp as u128) * (self.total as u128) <= 0xffff_ffff_u128 * 0xffff_ffff_ffff_ffff_u128) by (nonlinear_arith)
            requires
                threshold_bp <= 0xffff_ffff_u128,
                self.total <= 0xffff_ffff_ffff_ffff_u128,
        ;
        (self.matched as u128) * 10000 > (threshold_bp as u128) * (self.total as u128)
    }
}

/// The two kinds of conflict between routes with the same method.
#[derive(Debug, Clone, Copy, PartialEq, Eq, Structural)]
pub enum ConflictKind {
    /// The two paths are identical.
    ExactMatch,
    /// The paths have the same number of segments and differ at a
    /// parameter segment.
    ParameterConflict,
}

impl ConflictKind {
    /// The label used for this kind in reports.
    pub fn label(&self) -> (r: String)
        ensures
            *self == ConflictKind::ExactMatch ==> r@ == "Exact Match"@,
            *self == ConflictKind::ParameterConflict ==> r@ == "Parameter Conflict"@,
    {
        match self {
            ConflictKind::ExactMatch => String::from_str("Exact Match"),
            ConflictKind::ParameterConflict => String::from_str("Parameter Conflict"),
        }
    }
}

/// A pair of routes that may shadow each other at dispatch time.
#[derive(Debug, Clone)]
pub struct RouteConflict {
    pub route1: Route,
    pub route2: Route,
    pub similarity: Similarity,
    pub conflict_type: ConflictKind,
}

} // verus!

//! Module paths as written in `use` items and expressions.

use vstd::prelude::*;
use vstd::string::*;

verus! {

/// One segment of a path.
#[derive(Debug)]
pub enum PathSegment {
    Name(String),
    SelfKw,
    SuperKw,
    CrateKw,
}

/// Model of a path segment.
pub enum SegmentView {
    Name(Seq<char>),
    SelfKw,
    SuperKw,
    CrateKw,
}

impl View for PathSegment {
    type V = SegmentView;

    open spec fn view(&self) -> SegmentView {
        match self {
            PathSegment::Name(name) => SegmentView::Name(name@),
            PathSegment::SelfKw => SegmentView::SelfKw,
            PathSegment::SuperKw => SegmentView::SuperKw,
            PathSegment::CrateKw => SegmentView::CrateKw,
        }
    }
}

impl PathSegment {
    /// Copies the segment, keeping its model.
    pub fn duplicate(&self) -> (r: Self)
        ensures
            r == *self,
    {
        match self {
            PathSegment::Name(name) => PathSegment::Name(name.clone()),
            PathSegment::SelfKw => PathSegment::SelfKw,
            PathSegment::SuperKw => PathSegment::SuperKw,
            PathSegment::CrateKw => PathSegment::CrateKw,
        }
    }
}

/// A possibly absolute (`::`-prefixed) path.
#[derive(Debug)]
pub struct Path {
    pub absolute: bool,
    pub segments: Vec<PathSegment>,
}

/// Model of a path.
pub struct PathView {
    pub absolute: bool,
    pub segments: Seq<SegmentView>,
}

pub open spec fn segments_view(segments: Seq<PathSegment>) -> Seq<SegmentView> {
    segments.map_values(|s: PathSegment| s@)
}

impl View for Path {
    type V = PathView;

    open spec fn view(&self) -> PathView {
        PathView { absolute: self.absolute, segments: segments_view(self.segments@) }
    }
}

impl PathView {
    /// The name of a relative one-segment path such as `x` or `Self`.
    pub open spec fn single_name(self) -> Option<Seq<char>> {
        if !self.absolute && self.segments.len() == 1 {
            match self.segments[0] {
                SegmentView::Name(name) => Some(name),
                _ => None,
            }
        } else {
            None
        }
    }

    /// Whether the path is exactly `Self`.
    pub open spec fn is_self_type(self) -> bool {
        self.single_name() == Some(seq!['S', 'e', 'l', 'f'])
    }
}

/// Copies a list of segments, keeping their models.
pub fn duplicate_segments(segments: &Vec<PathSegment>) -> (r: Vec<PathSegment>)
    ensures
        r@ == segments@,
        segments_view(r@) == segments_view(segments@),
{
    let mut r: Vec<PathSegment> = Vec::new();
    let mut i: usize = 0;
    while i < segments.len()
        invariant
            i <= segments.len(),
            r.len() == i,
            forall|j: int| 0 <= j < i ==> r@[j] == segments@[j],
        decreases segments.len() - i,
    {
        r.push(segments[i].duplicate());
        i = i + 1;
    }
    assert(segments_view(r@) =~= segments_view(segments@));
    r
}

impl Path {
    /// Copies the path, keeping its model.
    pub fn duplicate(&self) -> (r: Self)
        ensures
            r@ == self@,
            r.absolute == self.absolute,
            r.segments@ == self.segments@,
    {
        Path { absolute: self.absolute, segments: duplicate_segments(&self.segments) }
    }

    /// Returns the name of a relative one-segment path.
    pub fn single_name(&self) -> (r: Option<&String>)
        ensures
            match r {
                Some(name) => self@.single_name() == Some(name@),
                None => self@.single_name() is None,
            },
    {
        if !self.absolute && self.segments.len() == 1 {
            match &self.segments[0] {
                PathSegment::Name(name) => Some(name),
                _ => None,
            }
        } else {
            None
        }
    }

    /// Whether the path is exactly `Self`.
    pub fn is_self_type(&self) -> (r: bool)
        ensures
            r == self@.is_self_type(),
    {
        match self.single_name() {
            Some(name) => {
                let self_kw = String::from_str("Self");
                proof {
                    reveal_strlit("Self");
                    assert("Self"@ =~= seq!['S', 'e', 'l', 'f']);
                }
                *name == self_kw
            },
            None => false,
        }
    }
}


/// The segment a written name stands for: `self`, `super` and `crate` are keywords.
pub open spec fn segment_for_name(name: Seq<char>) -> SegmentView {
    if name == "self"@ {
        SegmentView::SelfKw
    } else if name == "super"@ {
        SegmentView::SuperKw
    } else if name == "crate"@ {
        SegmentView::CrateKw
    } else {
        SegmentView::Name(name)
    }
}

impl PathSegment {
    /// The segment for a written name.
    pub fn from_name(name: &String) -> (r: Self)
        ensures
            r@ == segment_for_name(name@),
    {
        if *name == String::from_str("self") {
            PathSegment::SelfKw
        } else if *name == String::from_str("super") {
            PathSegment::SuperKw
        } else if *name == String::from_str("crate") {
            PathSegment::CrateKw
        } else {
            PathSegment::Name(name.clone())
        }
    }
}

} // verus!

//! Response-path tracking.
//!
//! A `QueryPathNode` is a backward-linked list of segments recording where
//! in the response tree the engine currently stands; it is serialized for
//! error reporting and `@defer` response routing.

use vstd::prelude::*;
use crate::value::{Json, JsonV};

verus! {

/// One segment of a response path.
pub enum QueryPathSegment {
    /// A list index.
    Index(usize),
    /// A field's result key.
    Name(String),
}

/// Mathematical model of a segment.
pub enum QueryPathSegmentV {
    Index(usize),
    Name(Seq<char>),
}

pub open spec fn seg_view(s: QueryPathSegment) -> QueryPathSegmentV {
    match s {
        QueryPathSegment::Index(i) => QueryPathSegmentV::Index(i),
        QueryPathSegment::Name(n) => QueryPathSegmentV::Name(n@),
    }
}

impl View for QueryPathSegment {
    type V = QueryPathSegmentV;

    open spec fn view(&self) -> QueryPathSegmentV {
        seg_view(*self)
    }
}

/// A node of the response path: its parent, and the segment added here.
pub struct QueryPathNode {
    /// The node one level up, if any.
    pub parent: Option<Box<QueryPathNode>>,
    /// The segment this node adds.
    pub segment: QueryPathSegment,
}

/// The segments of the path from the root down to `n`, in order.
pub open spec fn node_segs(n: QueryPathNode) -> Seq<QueryPathSegmentV>
    decreases n,
{
    match n.parent {
        Some(p) => node_segs(*p).push(seg_view(n.segment)),
        None => seq![seg_view(n.segment)],
    }
}

impl View for QueryPathNode {
    type V = Seq<QueryPathSegmentV>;

    open spec fn view(&self) -> Seq<QueryPathSegmentV> {
        node_segs(*self)
    }
}

/// The name of the nearest `Name` segment at or above the end of the path.
pub open spec fn last_name(segs: Seq<QueryPathSegmentV>) -> Option<Seq<char>>
    decreases segs.len(),
{
    if segs.len() == 0 {
        None
    } else {
        match segs.last() {
            QueryPathSegmentV::Name(n) => Some(n),
            QueryPathSegmentV::Index(_) => last_name(segs.drop_last()),
        }
    }
}

/// The JSON value a path segment serializes to.
pub open spec fn seg_json(s: QueryPathSegmentV) -> JsonV {
    match s {
        QueryPathSegmentV::Index(i) => JsonV::Int(i as i64),
        QueryPathSegmentV::Name(n) => JsonV::Str(n),
    }
}

/// The JSON array a whole path serializes to.
pub open spec fn path_json(segs: Seq<QueryPathSegmentV>) -> JsonV {
    JsonV::Array(segs.map_values(|s: QueryPathSegmentV| seg_json(s)))
}

/// The views of a list of serialized segments.
pub open spec fn json_seq_views(s: Seq<Json>) -> Seq<JsonV> {
    s.map_values(|j: Json| crate::value::json_view(j))
}

impl QueryPathNode {
    /// The field name this path reports errors under: the name of the
    /// nearest `Name` segment, walking from this node upward.
    pub fn field_name(&self) -> (r: &String)
        requires
            last_name(node_segs(*self)) is Some,
        ensures
            last_name(node_segs(*self)) == Some(r@),
        decreases *self,
    {
        match &self.segment {
            QueryPathSegment::Name(name) => name,
            QueryPathSegment::Index(_) => {
                proof {
                    assert(node_segs(*self).last() == seg_view(self.segment));
                    if self.parent is None {
                        assert(node_segs(*self) =~= seq![seg_view(self.segment)]);
                        assert(node_segs(*self).drop_last() =~= Seq::<
                            QueryPathSegmentV,
                        >::empty());
                        assert(last_name(node_segs(*self).drop_last()) is None);
                        assert(last_name(node_segs(*self)) is None);
                        assert(false);
                    }
                    assert(self.parent is Some);
                }
                if let Some(p) = &self.parent {
                    proof {
                        assert(decreases_to!(*self => **p));
                        assert(node_segs(*self).drop_last() =~= node_segs(**p));
                    }
                    p.field_name()
                } else {
                    vstd::pervasive::unreached()
                }
            },
        }
    }

    /// Applies `f` to every segment of the path, from the root downward.
    pub fn for_each<F: Fn(&QueryPathSegment)>(&self, f: F)
        requires
            forall|s: QueryPathSegment| #[trigger] call_requires(f, (&s,)),
    {
        self.for_each_ref(&f);
    }

    /// Applies `*f` to every segment of the path, from the root downward.
    pub fn for_each_ref<F: Fn(&QueryPathSegment)>(&self, f: &F)
        requires
            forall|s: QueryPathSegment| #[trigger] call_requires(*f, (&s,)),
        decreases *self,
    {
        match &self.parent {
            Some(parent) => {
                proof {
                    assert(decreases_to!(*self => **parent));
                }
                parent.for_each_ref(f);
            },
            None => {},
        }
        (*f)(&self.segment);
    }

    /// Serializes the path as a JSON array of its segments, exactly as
    /// [`path_json`] states.
    pub fn to_json(&self) -> (r: Json)
        ensures
            r@ == path_json(node_segs(*self)),
    {
        let mut out: Vec<Json> = Vec::new();
        self.append_segments(&mut out);
        let r = Json::Array(out);
        proof {
            assert(r@ matches JsonV::Array(m) && path_json(node_segs(*self)) matches JsonV::Array(
                sm,
            ) && m =~= sm);
        }
        r
    }

    /// Appends this path's serialized segments to `out`, root first.
    fn append_segments(&self, out: &mut Vec<Json>)
        ensures
            json_seq_views(final(out)@) == json_seq_views(old(out)@) + node_segs(
                *self,
            ).map_values(|s: QueryPathSegmentV| seg_json(s)),
        decreases *self,
    {
        match &self.parent {
            Some(parent) => {
                proof {
                    assert(decreases_to!(*self => **parent));
                }
                parent.append_segments(out);
            },
            None => {},
        }
        let ghost mid = out@;
        match &self.segment {
            QueryPathSegment::Index(i) => {
                out.push(Json::Int(#[verifier::truncate] (*i as i64)));
            },
            QueryPathSegment::Name(n) => {
                out.push(Json::Str(n.clone()));
            },
        }
        proof {
            assert(json_seq_views(out@) =~= json_seq_views(mid).push(seg_json(seg_view(
                self.segment,
            ))));
            assert(json_seq_views(old(out)@) + node_segs(*self).map_values(
                |s: QueryPathSegmentV| seg_json(s),
            ) =~= json_seq_views(out@));
        }
    }

    /// Structure-preserving clone of the path.
    pub fn clone_node(&self) -> (r: QueryPathNode)
        ensures
            r@ == self@,
        decreases *self,
    {
        let parent = match &self.parent {
            Some(p) => {
                proof {
                    assert(decreases_to!(*self => **p));
                }
                Some(Box::new(p.clone_node()))
            },
            None => None,
        };
        let segment = match &self.segment {
            QueryPathSegment::Index(i) => QueryPathSegment::Index(*i),
            QueryPathSegment::Name(n) => QueryPathSegment::Name(n.clone()),
        };
        QueryPathNode { parent, segment }
    }
}

impl Clone for QueryPathNode {
    fn clone(&self) -> (r: Self)
        ensures
            r@ == self@,
    {
        self.clone_node()
    }
}

} // verus!

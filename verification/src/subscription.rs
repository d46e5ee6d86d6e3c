//! Subscriptions: the setup walk that turns a subscription selection set
//! into one stream per surviving field, and the per-message resolution
//! cycle.

use vstd::prelude::*;
use crate::ast::{
    field_view, result_key, selection_set_view, Field, FieldV, Pos, SelectionSet, SelectionV,
    TypeCondition, TypeConditionV,
};
use crate::base::FieldContext;
use crate::context::{find_fragment, skip_spec, Environment, EnvironmentV};
use crate::error::{error_at, Error, ErrorV, QueryError, QueryErrorV};
use crate::path::{QueryPathNode, QueryPathSegment, QueryPathSegmentV};
use crate::registry::{Registry, RegistryV};
use crate::resolver::{child_segs, res_json_view, sel_directives, OutputValueType};
use crate::value::{Json, JsonV};

verus! {

/// The per-field stream setup a subscription root hands back: the field
/// whose messages the stream will carry.
pub struct FieldStream {
    /// The subscribed field, alias and arguments included.
    pub field: Field,
}

/// A GraphQL subscription root.
pub trait SubscriptionType {
    /// The schema-level name of this type.
    spec fn type_name_spec() -> Seq<char>;

    /// Whether this type is the empty unit root.
    spec fn is_empty_spec() -> bool;

    /// The schema-level name of this type.
    fn type_name_of() -> (r: String)
        ensures
            r@ == Self::type_name_spec(),
    ;

    /// Whether this type is the empty unit root.
    fn is_empty() -> (r: bool)
        ensures
            r == Self::is_empty_spec(),
    ;

    /// Registers this type; returns the type name, under which an entry
    /// is then registered.
    fn create_type_info(registry: &mut Registry) -> (r: String)
        ensures
            r@ == Self::type_name_spec(),
            crate::registry::reg_type(final (registry)@, Self::type_name_spec()) is Some,
            forall|nm: Seq<char>|
                #[trigger] crate::registry::reg_type(old(registry)@, nm) is Some
                    ==> crate::registry::reg_type(final (registry)@, nm) is Some,
    ;

    /// Constructs the stream setup for one subscribed field; the setup
    /// carries that very field.
    fn create_field_stream(
        &self,
        ctx: &FieldContext,
        env: &Environment,
        registry: &Registry,
    ) -> (r: Result<FieldStream, Error>)
        ensures
            r matches Ok(fs) ==> field_view(fs.field) == field_view(ctx.field),
    ;
}

/// A subscription walk failure: the error, and the fields already
/// subscribed before it.
pub struct SubWalkErrV {
    pub pre: Seq<FieldV>,
    pub err: ErrorV,
}

/// The fields a subscription walk subscribes, in order; the first failing
/// member fails the walk, the fields subscribed before it recorded.
pub open spec fn sub_fields(
    env: EnvironmentV,
    items: Seq<SelectionV>,
    sname: Seq<char>,
    depth: nat,
) -> Result<Seq<FieldV>, SubWalkErrV>
    decreases depth, 1int, items.len(),
{
    if items.len() == 0 {
        Ok(Seq::empty())
    } else {
        match one_sub_fields(env, items[0], sname, depth) {
            Err(w) => Err(w),
            Ok(p) => match sub_fields(env, items.skip(1), sname, depth) {
                Err(w) => Err(SubWalkErrV { pre: p + w.pre, err: w.err }),
                Ok(t) => Ok(p + t),
            },
        }
    }
}

/// The fields one member subscribes: an elided member none; a field
/// itself; a spread of an unbound fragment is `UnknownFragment` at its
/// position; an inline fragment with a type condition is entered only
/// when the condition names the subscription type itself; an exhausted
/// depth budget is `TooDeep`.
pub open spec fn one_sub_fields(
    env: EnvironmentV,
    sel: SelectionV,
    sname: Seq<char>,
    depth: nat,
) -> Result<Seq<FieldV>, SubWalkErrV>
    decreases depth, 0int, 0int,
{
    match skip_spec(env, sel_directives(sel)) {
        Err(e) => Err(SubWalkErrV { pre: Seq::empty(), err: e }),
        Ok(true) => Ok(Seq::empty()),
        Ok(false) => match sel {
            SelectionV::Field(f) => Ok(seq![f]),
            SelectionV::FragmentSpread(fs) => match find_fragment(env.fragments, fs.fragment_name) {
                None => Err(
                    SubWalkErrV {
                        pre: Seq::empty(),
                        err: error_at(fs.position, QueryErrorV::UnknownFragment {
                            name: fs.fragment_name,
                        }),
                    },
                ),
                Some(frag) => if depth == 0 {
                    Err(
                        SubWalkErrV {
                            pre: Seq::empty(),
                            err: error_at(fs.position, QueryErrorV::TooDeep),
                        },
                    )
                } else {
                    sub_fields(env, frag.selection_set.items, sname, (depth - 1) as nat)
                },
            },
            SelectionV::InlineFragment(inf) => {
                let enter = match inf.type_condition {
                    Some(TypeConditionV::On(nm)) => nm == sname,
                    None => true,
                };
                if enter {
                    if depth == 0 {
                        Err(
                            SubWalkErrV {
                                pre: Seq::empty(),
                                err: error_at(inf.position, QueryErrorV::TooDeep),
                            },
                        )
                    } else {
                        sub_fields(env, inf.selection_set.items, sname, (depth - 1) as nat)
                    }
                } else {
                    Ok(Seq::empty())
                }
            },
        },
    }
}

/// Splitting the subscribed fields of a member list at its head.
proof fn lemma_sub_fields_take_step(
    env: EnvironmentV,
    items: Seq<SelectionV>,
    sname: Seq<char>,
    depth: nat,
    i: int,
)
    requires
        0 <= i < items.len(),
    ensures
        sub_fields(env, items.take(i + 1), sname, depth) == (match (
            sub_fields(env, items.take(i), sname, depth),
            one_sub_fields(env, items[i], sname, depth),
        ) {
            (Ok(p), Ok(q)) => Ok::<Seq<FieldV>, SubWalkErrV>(p + q),
            (Ok(p), Err(w)) => Err(SubWalkErrV { pre: p + w.pre, err: w.err }),
            (Err(w), _) => Err(w),
        }),
    decreases i,
{
    let pre = items.take(i);
    let pre1 = items.take(i + 1);
    if i == 0 {
        assert(pre =~= Seq::<SelectionV>::empty());
        assert(pre1 =~= seq![items[0]]);
        assert(pre1[0] == items[0]);
        assert(pre1.skip(1) =~= Seq::<SelectionV>::empty());
        match one_sub_fields(env, items[0], sname, depth) {
            Ok(q) => {
                assert(Seq::<FieldV>::empty() + q =~= q);
                assert(q + Seq::<FieldV>::empty() =~= q);
            },
            Err(w) => {
                assert(Seq::<FieldV>::empty() + w.pre =~= w.pre);
            },
        }
    } else {
        lemma_sub_fields_take_step(env, items.skip(1), sname, depth, i - 1);
        assert(pre[0] == items[0]);
        assert(pre1[0] == items[0]);
        assert(pre.skip(1) =~= items.skip(1).take(i - 1));
        assert(pre1.skip(1) =~= items.skip(1).take(i));
        assert(items.skip(1)[i - 1] == items[i]);
        match (
            sub_fields(env, items.skip(1).take(i - 1), sname, depth),
            one_sub_fields(env, items[i], sname, depth),
            one_sub_fields(env, items[0], sname, depth),
        ) {
            (Ok(p), Ok(q), Ok(h)) => {
                assert(h + (p + q) =~= (h + p) + q);
            },
            (Ok(p), Err(w), Ok(h)) => {
                assert(h + (p + w.pre) =~= (h + p) + w.pre);
            },
            _ => {},
        }
    }
}

/// Splitting the subscribed fields at any point.
proof fn lemma_sub_split(
    env: EnvironmentV,
    items: Seq<SelectionV>,
    sname: Seq<char>,
    depth: nat,
    i: int,
)
    requires
        0 <= i <= items.len(),
    ensures
        sub_fields(env, items, sname, depth) == (match (
            sub_fields(env, items.take(i), sname, depth),
            sub_fields(env, items.skip(i), sname, depth),
        ) {
            (Ok(a), Ok(b)) => Ok::<Seq<FieldV>, SubWalkErrV>(a + b),
            (Ok(a), Err(w)) => Err(SubWalkErrV { pre: a + w.pre, err: w.err }),
            (Err(w), _) => Err(w),
        }),
    decreases i,
{
    if i == 0 {
        assert(items.take(0) =~= Seq::<SelectionV>::empty());
        assert(items.skip(0) =~= items);
        match sub_fields(env, items, sname, depth) {
            Ok(b) => {
                assert(Seq::<FieldV>::empty() + b =~= b);
            },
            Err(w) => {
                assert(Seq::<FieldV>::empty() + w.pre =~= w.pre);
            },
        }
    } else {
        lemma_sub_split(env, items.skip(1), sname, depth, i - 1);
        assert(items.take(i)[0] == items[0]);
        assert(items.take(i).skip(1) =~= items.skip(1).take(i - 1));
        assert(items.skip(1).skip(i - 1) =~= items.skip(i));
        match (
            sub_fields(env, items.skip(1).take(i - 1), sname, depth),
            sub_fields(env, items.skip(i), sname, depth),
            one_sub_fields(env, items[0], sname, depth),
        ) {
            (Ok(a), Ok(b), Ok(h)) => {
                assert(h + (a + b) =~= (h + a) + b);
            },
            (Ok(a), Err(w), Ok(h)) => {
                assert(h + (a + w.pre) =~= (h + a) + w.pre);
            },
            _ => {},
        }
    }
}

/// When the member at `i` fails after a successful prefix, the whole
/// walk fails with that member's error behind the prefix's fields.
proof fn lemma_sub_item_fails(
    env: EnvironmentV,
    items: Seq<SelectionV>,
    sname: Seq<char>,
    depth: nat,
    i: int,
)
    requires
        0 <= i < items.len(),
        sub_fields(env, items.take(i), sname, depth) is Ok,
        one_sub_fields(env, items[i], sname, depth) is Err,
    ensures
        sub_fields(env, items, sname, depth) matches Err(w) && w.err == one_sub_fields(
            env,
            items[i],
            sname,
            depth,
        )->Err_0.err && w.pre == sub_fields(env, items.take(i), sname, depth)->Ok_0
            + one_sub_fields(env, items[i], sname, depth)->Err_0.pre,
{
    lemma_sub_split(env, items, sname, depth, i);
    assert(items.skip(i).len() == items.len() - i);
    assert(items.skip(i)[0] == items[i]);
    assert(items.skip(i).skip(1) =~= items.skip(i + 1));
}

/// When the member at `i` subscribes at least one field, no outcome of
/// the whole walk is free of subscribed fields.
proof fn lemma_sub_nonempty_prefix(
    env: EnvironmentV,
    items: Seq<SelectionV>,
    sname: Seq<char>,
    depth: nat,
    i: int,
)
    requires
        0 <= i < items.len(),
        sub_fields(env, items.take(i), sname, depth) is Ok,
        one_sub_fields(env, items[i], sname, depth) is Ok,
        one_sub_fields(env, items[i], sname, depth)->Ok_0.len() > 0,
    ensures
        match sub_fields(env, items, sname, depth) {
            Ok(fs) => fs.len() > 0,
            Err(w) => w.pre.len() > 0,
        },
{
    lemma_sub_split(env, items, sname, depth, i);
    assert(items.skip(i).len() == items.len() - i);
    assert(items.skip(i)[0] == items[i]);
    assert(items.skip(i).skip(1) =~= items.skip(i + 1));
}

pub open spec fn stream_fields(s: Seq<FieldStream>) -> Seq<FieldV> {
    s.map_values(|fs: FieldStream| field_view(fs.field))
}

/// Walks a subscription selection set and appends one stream setup per
/// surviving field, in order: on success the appended setups carry
/// exactly the fields the walk subscribes.  A failing walk fails the
/// call, with the walk's own error unless a field's stream was
/// constructed before the failure; a walk subscribing no field succeeds.
#[verifier::loop_isolation(false)]
pub fn create_subscription_stream<S: SubscriptionType>(
    subscription: &S,
    ss: &SelectionSet,
    env: &Environment,
    registry: &Registry,
    depth: u32,
    streams: &mut Vec<FieldStream>,
) -> (r: Result<(), Error>)
    ensures
        ({
            let sname = S::type_name_spec();
            let itemsv = selection_set_view(*ss).items;
            match sub_fields(env@, itemsv, sname, depth as nat) {
                Err(w) => !(r is Ok) && (w.pre.len() == 0 ==> (r matches Err(e) && e@ == w.err)),
                Ok(fs) => {
                    &&& (r is Ok ==> stream_fields(final (streams)@) == stream_fields(
                        old(streams)@,
                    ) + fs)
                    &&& (fs.len() == 0 ==> r is Ok)
                },
            }
        }),
    decreases depth, 2int,
{
    let ghost sname = S::type_name_spec();
    let ghost itemsv = selection_set_view(*ss).items;
    let ghost dep = depth as nat;
    let ghost s0 = stream_fields(streams@);
    let n = ss.items.len();
    let mut i: usize = 0;
    proof {
        assert(itemsv.take(0) =~= Seq::<SelectionV>::empty());
        assert(s0 + Seq::<FieldV>::empty() =~= s0);
    }
    while i < n
        invariant
            0 <= i <= n,
            n == ss.items@.len(),
            itemsv.len() == n,
            forall|k: int| 0 <= k < n ==> itemsv[k] == crate::ast::selection_view(ss.items@[k]),
            sub_fields(env@, itemsv.take(i as int), sname, dep) is Ok,
            stream_fields(streams@) == s0 + sub_fields(
                env@,
                itemsv.take(i as int),
                sname,
                dep,
            )->Ok_0,
        decreases n - i,
    {
        let ghost spre = stream_fields(streams@);
        let ghost one = one_sub_fields(env@, itemsv[i as int], sname, dep);
        proof {
            lemma_sub_fields_take_step(env@, itemsv, sname, dep, i as int);
        }
        match &ss.items[i] {
            crate::ast::Selection::Field(field) => {
                match crate::context::is_skip(env, &field.directives) {
                    Err(e) => {
                        proof {
                            assert(one matches Err(w) && w.pre == Seq::<FieldV>::empty() && w.err
                                == crate::error::error_view(e));
                            lemma_sub_item_fails(env@, itemsv, sname, dep, i as int);
                        }
                        return Err(e);
                    },
                    Ok(true) => {
                        proof {
                            assert(spre + Seq::<FieldV>::empty() =~= spre);
                        }
                    },
                    Ok(false) => {
                        proof {
                            assert(one == Ok::<Seq<FieldV>, SubWalkErrV>(
                                seq![crate::ast::field_view(*field)],
                            ));
                            lemma_sub_nonempty_prefix(env@, itemsv, sname, dep, i as int);
                        }
                        let fc = crate::ast::clone_field(field);
                        let ctx = FieldContext { field: fc, path: None };
                        match subscription.create_field_stream(&ctx, env, registry) {
                            Err(e) => {
                                return Err(e);
                            },
                            Ok(fs) => {
                                streams.push(fs);
                                proof {
                                    assert(stream_fields(streams@) =~= spre.push(
                                        field_view(streams@.last().field),
                                    ));
                                    assert(spre + seq![itemsv[i as int]->Field_0] =~= stream_fields(
                                        streams@,
                                    ));
                                }
                            },
                        }
                    },
                }
            },
            crate::ast::Selection::FragmentSpread(spread) => {
                match crate::context::is_skip(env, &spread.directives) {
                    Err(e) => {
                        proof {
                            assert(one matches Err(w) && w.pre == Seq::<FieldV>::empty() && w.err
                                == crate::error::error_view(e));
                            lemma_sub_item_fails(env@, itemsv, sname, dep, i as int);
                        }
                        return Err(e);
                    },
                    Ok(true) => {
                        proof {
                            assert(spre + Seq::<FieldV>::empty() =~= spre);
                        }
                    },
                    Ok(false) => {
                        match crate::resolver::lookup_fragment(env, &spread.fragment_name) {
                            None => {
                                let e = QueryError::UnknownFragment {
                                    name: spread.fragment_name.clone(),
                                }.into_error(spread.position);
                                proof {
                                    assert(one matches Err(w) && w.pre == Seq::<FieldV>::empty()
                                        && w.err == crate::error::error_view(e));
                                    lemma_sub_item_fails(env@, itemsv, sname, dep, i as int);
                                }
                                return Err(e);
                            },
                            Some(fragment) => {
                                if depth == 0 {
                                    let e = QueryError::TooDeep.into_error(spread.position);
                                    proof {
                                        assert(one matches Err(w) && w.pre == Seq::<
                                            FieldV,
                                        >::empty() && w.err == crate::error::error_view(e));
                                        lemma_sub_item_fails(env@, itemsv, sname, dep, i as int);
                                    }
                                    return Err(e);
                                }
                                let frag_ss = crate::ast::clone_selection_set(
                                    &fragment.selection_set,
                                );
                                let ghost sub = sub_fields(
                                    env@,
                                    selection_set_view(frag_ss).items,
                                    sname,
                                    (dep - 1) as nat,
                                );
                                match create_subscription_stream(
                                    subscription,
                                    &frag_ss,
                                    env,
                                    registry,
                                    depth - 1,
                                    streams,
                                ) {
                                    Err(e) => {
                                        proof {
                                            match sub {
                                                Err(sw) => {
                                                    assert(one == Err::<Seq<FieldV>, SubWalkErrV>(sw));
                                                    lemma_sub_item_fails(env@, itemsv, sname, dep, i as int);
                                                },
                                                Ok(pp) => {
                                                    assert(pp.len() > 0);
                                                    assert(one == Ok::<Seq<FieldV>, SubWalkErrV>(pp));
                                                    lemma_sub_nonempty_prefix(env@, itemsv, sname, dep, i as int);
                                                },
                                            }
                                        }
                                        return Err(e);
                                    },
                                    Ok(()) => {
                                        proof {
                                            assert(sub is Ok);
                                            assert(stream_fields(streams@) =~= spre
                                                + sub->Ok_0);
                                        }
                                    },
                                }
                            },
                        }
                    },
                }
            },
            crate::ast::Selection::InlineFragment(inline) => {
                match crate::context::is_skip(env, &inline.directives) {
                    Err(e) => {
                        proof {
                            assert(one matches Err(w) && w.pre == Seq::<FieldV>::empty() && w.err
                                == crate::error::error_view(e));
                            lemma_sub_item_fails(env@, itemsv, sname, dep, i as int);
                        }
                        return Err(e);
                    },
                    Ok(true) => {
                        proof {
                            assert(spre + Seq::<FieldV>::empty() =~= spre);
                        }
                    },
                    Ok(false) => {
                        let enter = match &inline.type_condition {
                            Some(TypeCondition::On(nm)) => {
                                let sn = S::type_name_of();
                                crate::context::str_eq_lit(nm, sn.as_str())
                            },
                            None => true,
                        };
                        if enter {
                            if depth == 0 {
                                let e = QueryError::TooDeep.into_error(inline.position);
                                proof {
                                    assert(one matches Err(w) && w.pre == Seq::<FieldV>::empty()
                                        && w.err == crate::error::error_view(e));
                                    lemma_sub_item_fails(env@, itemsv, sname, dep, i as int);
                                }
                                return Err(e);
                            }
                            let ghost sub = sub_fields(
                                env@,
                                selection_set_view(inline.selection_set).items,
                                sname,
                                (dep - 1) as nat,
                            );
                            match create_subscription_stream(
                                subscription,
                                &inline.selection_set,
                                env,
                                registry,
                                depth - 1,
                                streams,
                            ) {
                                Err(e) => {
                                    proof {
                                        match sub {
                                            Err(sw) => {
                                                assert(one == Err::<Seq<FieldV>, SubWalkErrV>(sw));
                                                lemma_sub_item_fails(env@, itemsv, sname, dep, i as int);
                                            },
                                            Ok(pp) => {
                                                assert(pp.len() > 0);
                                                assert(one == Ok::<Seq<FieldV>, SubWalkErrV>(pp));
                                                lemma_sub_nonempty_prefix(env@, itemsv, sname, dep, i as int);
                                            },
                                        }
                                    }
                                    return Err(e);
                                },
                                Ok(()) => {
                                    proof {
                                        assert(sub is Ok);
                                        assert(stream_fields(streams@) =~= spre + sub->Ok_0);
                                    }
                                },
                            }
                        } else {
                            proof {
                                assert(spre + Seq::<FieldV>::empty() =~= spre);
                            }
                        }
                    },
                }
            },
        }
        i += 1;
    }
    proof {
        assert(itemsv.take(n as int) =~= itemsv);
    }
    Ok(())
}

/// Resolves one source message of a per-field stream: the message is
/// resolved against the field's selection set under a fresh context, and
/// wrapped under the field's result key.  A message whose resolution
/// fails is dropped, yielding nothing.
pub fn resolve_message<T: OutputValueType>(
    msg: &T,
    field: &Field,
    env: &Environment,
    registry: &Registry,
    depth: u32,
) -> (r: Option<(String, Json)>)
    ensures
        ({
            let fv = field_view(*field);
            let key = result_key(fv);
            match r {
                Some(p) => p.0@ == key && msg.resolves_to(
                    env@,
                    registry@,
                    fv.selection_set,
                    Some(child_segs(None, key)),
                    depth as nat,
                    Ok(crate::value::json_view(p.1)),
                ),
                None => exists|e: ErrorV|
                    msg.resolves_to(
                        env@,
                        registry@,
                        fv.selection_set,
                        Some(child_segs(None, key)),
                        depth as nat,
                        Err(e),
                    ),
            }
        }),
{
    let key = crate::context::result_name(field);
    let child = crate::resolver::child_path(&None, key);
    match msg.resolve_output(&field.selection_set, &Some(child), env, registry, depth) {
        Ok(v) => Some((key.clone(), v)),
        Err(e) => {
            proof {
                assert(msg.resolves_to(
                    env@,
                    registry@,
                    field_view(*field).selection_set,
                    Some(child_segs(None, result_key(field_view(*field)))),
                    depth as nat,
                    Err(e@),
                ));
            }
            None
        },
    }
}

/// The empty subscription root: only a parameter for schemas without
/// subscriptions.
pub struct EmptySubscription;

impl SubscriptionType for EmptySubscription {
    open spec fn type_name_spec() -> Seq<char> {
        "EmptySubscription"@
    }

    open spec fn is_empty_spec() -> bool {
        true
    }

    fn type_name_of() -> (r: String) {
        "EmptySubscription".to_owned()
    }

    fn is_empty() -> (r: bool) {
        true
    }

    fn create_type_info(registry: &mut Registry) -> (r: String) {
        let name = "EmptySubscription".to_owned();
        let info = crate::registry::MetaType::Object {
            name: "EmptySubscription".to_owned(),
            description: None,
            fields: Vec::new(),
            cache_control: crate::registry::CacheControl { public: true, max_age: 0 },
            extends: false,
            keys: None,
        };
        registry.register_type(&name, info)
    }

    /// The empty root subscribes to nothing: always exactly the
    /// `NotConfiguredSubscriptions` error at the default position.
    fn create_field_stream(
        &self,
        ctx: &FieldContext,
        env: &Environment,
        registry: &Registry,
    ) -> (r: Result<FieldStream, Error>)
        ensures
            r matches Err(e) && e@ == error_at(
                Pos { line: 0, column: 0 },
                QueryErrorV::NotConfiguredSubscriptions,
            ),
    {
        Err(
            QueryError::NotConfiguredSubscriptions.into_error(
                Pos { line: 0, column: 0 },
            ),
        )
    }
}

} // verus!

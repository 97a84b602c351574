//! Element-type extraction: the sole type argument of a one-argument generic
//! path type such as `Vec<T>`.
use vstd::prelude::*;
use crate::schema::{GenericArg, SegmentArgs, TypeExpr};

verus! {

/// The argument `T` of `ty` when `ty` is written `wrapper<T>`: a path of one
/// segment named `wrapper`, with exactly one argument, which is a type.
pub open spec fn inner_type_spec(wrapper: Seq<char>, ty: TypeExpr) -> Option<TypeExpr> {
    match ty {
        TypeExpr::Path(segs) => {
            if segs@.len() == 1 && segs@[0].ident@ == wrapper {
                match segs@[0].args {
                    SegmentArgs::Angle(args) => {
                        if args@.len() == 1 {
                            match args@[0] {
                                GenericArg::Type(t) => Some(t),
                                _ => None,
                            }
                        } else {
                            None
                        }
                    },
                    _ => None,
                }
            } else {
                None
            }
        },
        _ => None,
    }
}

/// The element type of `ty` when it is written `wrapper<T>`.
pub fn ty_inner_type<'a>(wrapper: &str, ty: &'a TypeExpr) -> (r: Option<&'a TypeExpr>)
    ensures
        match r {
            Some(t) => inner_type_spec(wrapper@, *ty) == Some(*t),
            None => inner_type_spec(wrapper@, *ty) is None,
        },
{
    match ty {
        TypeExpr::Path(segs) => {
            if segs.len() != 1 || !crate::options::same_text(segs[0].ident.as_str(), wrapper) {
                return None;
            }
            match &segs[0].args {
                SegmentArgs::Angle(args) => {
                    if args.len() != 1 {
                        return None;
                    }
                    match &args[0] {
                        GenericArg::Type(t) => Some(t),
                        _ => None,
                    }
                },
                _ => None,
            }
        },
        _ => None,
    }
}

} // verus!

//! Assembly of command-line arguments from asset references.
//!
//! An enabled asset of category `kind` contributes
//! `<prefix> "<absolute-path>"`; a disabled asset contributes nothing.
//! Pieces are joined with single spaces, and no escaping of quotes
//! embedded in paths is performed.

use vstd::prelude::*;
use vstd::string::*;

use crate::asset::{absolute_of, Asset, AssetKind, AssetV};
use crate::store::StoreRoot;

verus! {

/// The argument of one enabled asset: `<prefix> "<absolute-path>"`.
pub open spec fn argument_of(kind: AssetKind, a: AssetV, root: Seq<char>) -> Seq<char> {
    kind.spec_prefix() + seq![' ', '"'] + absolute_of(root, a.path) + seq!['"']
}

/// The enabled references, in order.
pub open spec fn enabled_of(s: Seq<AssetV>) -> Seq<AssetV>
    decreases s.len(),
{
    if s.len() == 0 {
        Seq::empty()
    } else {
        let rest = enabled_of(s.drop_last());
        if s.last().enabled {
            rest.push(s.last())
        } else {
            rest
        }
    }
}

/// The arguments of the enabled references, in order.
pub open spec fn arguments_of(kind: AssetKind, s: Seq<AssetV>, root: Seq<char>) -> Seq<Seq<char>> {
    enabled_of(s).map_values(|a: AssetV| argument_of(kind, a, root))
}

/// Pieces joined with a single space between neighbours.
pub open spec fn space_joined(parts: Seq<Seq<char>>) -> Seq<char>
    decreases parts.len(),
{
    if parts.len() == 0 {
        Seq::empty()
    } else if parts.len() == 1 {
        parts[0]
    } else {
        space_joined(parts.drop_last()) + seq![' '] + parts.last()
    }
}

/// Mapping a function over a sequence commutes with appending one element.
pub proof fn lemma_map_values_push<A, B>(s: Seq<A>, f: spec_fn(A) -> B, x: A)
    ensures
        s.push(x).map_values(f) =~= s.map_values(f).push(f(x)),
{
    let l = s.push(x).map_values(f);
    let r = s.map_values(f).push(f(x));
    assert forall|k: int| 0 <= k < l.len() implies l[k] == r[k] by {
        if k < s.len() {
            assert(s.push(x)[k] == s[k]);
        } else {
            assert(s.push(x)[k] == x);
        }
    }
}

/// A cloned asset list has the same value, element by element.
pub fn clone_assets(v: &Vec<Asset>) -> (r: Vec<Asset>)
    ensures
        r@.map_values(|a: Asset| a@) == v@.map_values(|a: Asset| a@),
{
    let ghost f = |a: Asset| a@;
    let mut r: Vec<Asset> = Vec::new();
    let mut i: usize = 0;
    proof {
        assert(r@.map_values(f) =~= v@.take(0).map_values(f));
    }
    while i < v.len()
        invariant
            i <= v@.len(),
            r@.map_values(f) == v@.take(i as int).map_values(f),
            f == (|a: Asset| a@),
        decreases v@.len() - i,
    {
        let ghost r0 = r@;
        let c = v[i].clone();
        r.push(c);
        proof {
            assert(v@.take(i + 1 as int) =~= v@.take(i as int).push(v@[i as int]));
            lemma_map_values_push(v@.take(i as int), f, v@[i as int]);
            lemma_map_values_push(r0, f, c);
            assert(f(c) == f(v@[i as int]));
        }
        i = i + 1;
    }
    proof {
        assert(v@.take(v@.len() as int) =~= v@);
    }
    r
}

/// A cloned string list has the same value, element by element.
pub fn clone_strings(v: &Vec<String>) -> (r: Vec<String>)
    ensures
        r@.map_values(|s: String| s@) == v@.map_values(|s: String| s@),
{
    let ghost f = |s: String| s@;
    let mut r: Vec<String> = Vec::new();
    let mut i: usize = 0;
    proof {
        assert(r@.map_values(f) =~= v@.take(0).map_values(f));
    }
    while i < v.len()
        invariant
            i <= v@.len(),
            r@.map_values(f) == v@.take(i as int).map_values(f),
            f == (|s: String| s@),
        decreases v@.len() - i,
    {
        let ghost r0 = r@;
        let c = v[i].clone();
        r.push(c);
        proof {
            assert(v@.take(i + 1 as int) =~= v@.take(i as int).push(v@[i as int]));
            lemma_map_values_push(v@.take(i as int), f, v@[i as int]);
            lemma_map_values_push(r0, f, c);
            assert(f(c) == f(v@[i as int]));
        }
        i = i + 1;
    }
    proof {
        assert(v@.take(v@.len() as int) =~= v@);
    }
    r
}

/// The argument text of one asset.
pub fn get_argument(kind: AssetKind, asset: &Asset, root: &StoreRoot) -> (r: String)
    ensures
        r@ == argument_of(kind, asset@, root@),
{
    proof {
        reveal_strlit(" \"");
        reveal_strlit("\"");
        assert(" \""@ =~= seq![' ', '"']);
        assert("\""@ =~= seq!['"']);
    }
    let mut r = kind.get_prefix().to_owned();
    r.append(" \"");
    let abs = asset.get_absolute_path(root.as_str());
    r.append(abs.as_str());
    r.append("\"");
    proof {
        assert(r@ =~= argument_of(kind, asset@, root@));
    }
    r
}

/// The enabled references, in order.
pub fn get_enabled(assets: &Vec<Asset>) -> (r: Vec<Asset>)
    ensures
        r@.map_values(|a: Asset| a@) == enabled_of(assets@.map_values(|a: Asset| a@)),
{
    let ghost all = assets@.map_values(|a: Asset| a@);
    let mut r: Vec<Asset> = Vec::new();
    let mut i: usize = 0;
    proof {
        assert(all.take(0) =~= Seq::<AssetV>::empty());
        assert(r@.map_values(|a: Asset| a@) =~= enabled_of(all.take(0)));
    }
    while i < assets.len()
        invariant
            i <= assets.len(),
            all == assets@.map_values(|a: Asset| a@),
            r@.map_values(|a: Asset| a@) == enabled_of(all.take(i as int)),
        decreases assets.len() - i,
    {
        let ghost r0 = r@;
        if assets[i].enabled {
            r.push(assets[i].clone());
        }
        proof {
            assert(all.take(i + 1 as int).drop_last() =~= all.take(i as int));
            assert(all.take(i + 1 as int).last() == all[i as int]);
            if all[i as int].enabled {
                assert(r@ =~= r0.push(r@.last()));
                assert(r@.map_values(|a: Asset| a@) =~= r0.map_values(|a: Asset| a@).push(
                    all[i as int],
                ));
            }
        }
        i = i + 1;
    }
    proof {
        assert(all.take(assets@.len() as int) =~= all);
    }
    r
}

/// The arguments of all enabled references, in order.
pub fn get_arguments(kind: AssetKind, assets: &Vec<Asset>, root: &StoreRoot) -> (r: Vec<String>)
    ensures
        r@.map_values(|s: String| s@) == arguments_of(
            kind,
            assets@.map_values(|a: Asset| a@),
            root@,
        ),
{
    let enabled = get_enabled(assets);
    let ghost en = enabled_of(assets@.map_values(|a: Asset| a@));
    let mut r: Vec<String> = Vec::new();
    let mut i: usize = 0;
    while i < enabled.len()
        invariant
            i <= enabled.len(),
            en == enabled_of(assets@.map_values(|a: Asset| a@)),
            enabled@.map_values(|a: Asset| a@) == en,
            r@.map_values(|s: String| s@) =~= en.take(i as int).map_values(
                |a: AssetV| argument_of(kind, a, root@),
            ),
        decreases enabled.len() - i,
    {
        let ghost r0 = r@;
        let arg = get_argument(kind, &enabled[i], root);
        r.push(arg);
        proof {
            let f = |a: AssetV| argument_of(kind, a, root@);
            let g = |s: String| s@;
            assert(enabled@.map_values(|a: Asset| a@)[i as int] == enabled@[i as int]@);
            assert(en.take(i + 1 as int) =~= en.take(i as int).push(en[i as int]));
            lemma_map_values_push(en.take(i as int), f, en[i as int]);
            lemma_map_values_push(r0, g, arg);
            assert(g(arg) == f(en[i as int]));
        }
        i = i + 1;
    }
    proof {
        assert(en.take(en.len() as int) =~= en);
    }
    r
}

/// Joins pieces with single spaces.
pub fn join_with_spaces(parts: &Vec<String>) -> (r: String)
    ensures
        r@ == space_joined(parts@.map_values(|s: String| s@)),
{
    proof {
        reveal_strlit(" ");
        assert(" "@ =~= seq![' ']);
    }
    let ghost ps = parts@.map_values(|s: String| s@);
    let mut r = String::new();
    let mut i: usize = 0;
    proof {
        assert(ps.take(0) =~= Seq::<Seq<char>>::empty());
        assert(r@ =~= space_joined(ps.take(0)));
    }
    while i < parts.len()
        invariant
            i <= parts.len(),
            ps == parts@.map_values(|s: String| s@),
            r@ == space_joined(ps.take(i as int)),
        decreases parts.len() - i,
    {
        proof {
            reveal_strlit(" ");
            assert(" "@ =~= seq![' ']);
        }
        let ghost r0 = r@;
        if i > 0 {
            r.append(" ");
        }
        r.append(parts[i].as_str());
        proof {
            assert(ps.take(i + 1 as int).drop_last() =~= ps.take(i as int));
            assert(ps.take(i + 1 as int).last() == ps[i as int]);
            if i == 0 {
                assert(ps.take(1)[0] == ps[0]);
                assert(r@ =~= space_joined(ps.take(1)));
            } else {
                assert(r@ =~= space_joined(ps.take(i + 1 as int)));
            }
        }
        i = i + 1;
    }
    proof {
        assert(ps.take(parts@.len() as int) =~= ps);
    }
    r
}

} // verus!

//! The game data of an instance: its asset reference lists, its save
//! directory, and extra raw launch parameters.

use vstd::prelude::*;
use vstd::string::*;

use crate::asset::{absolute_of, Asset, AssetKind, AssetV};
use crate::store::StoreRoot;
use crate::utils::{argument_of, arguments_of, enabled_of, get_arguments, join_with_spaces, space_joined};

verus! {

pub struct GameData {
    pub iwads: Vec<Asset>,
    pub mods: Vec<Asset>,
    /// Store-relative (`saves/<instance-name>`) or absolute.
    pub savedir: String,
    /// Raw argument tokens appended verbatim.
    pub additional_params: Vec<String>,
}

/// The mathematical value of the game data.
#[verifier::ext_equal]
pub ghost struct GameDataV {
    pub iwads: Seq<AssetV>,
    pub mods: Seq<AssetV>,
    pub savedir: Seq<char>,
    pub additional_params: Seq<Seq<char>>,
}

impl View for GameData {
    type V = GameDataV;

    open spec fn view(&self) -> GameDataV {
        GameDataV {
            iwads: self.iwads@.map_values(|a: Asset| a@),
            mods: self.mods@.map_values(|a: Asset| a@),
            savedir: self.savedir@,
            additional_params: self.additional_params@.map_values(|s: String| s@),
        }
    }
}

/// The space-joined arguments of the enabled iwads.
pub open spec fn iwad_parameters_of(g: GameDataV, root: Seq<char>) -> Seq<char> {
    space_joined(arguments_of(AssetKind::Iwad, g.iwads, root))
}

/// The space-joined arguments of the enabled mods.
pub open spec fn mods_parameters_of(g: GameDataV, root: Seq<char>) -> Seq<char> {
    space_joined(arguments_of(AssetKind::Mod, g.mods, root))
}

/// The save-directory argument: `-savedir "<absolute-savedir>"`.
pub open spec fn savedir_argument_of(g: GameDataV, root: Seq<char>) -> Seq<char> {
    "-savedir"@ + seq![' ', '"'] + absolute_of(root, g.savedir) + seq!['"']
}

/// The whole parameter text: iwad arguments, mod arguments, the save
/// directory argument, then the raw additional parameters, joined with
/// single spaces.
pub open spec fn parameters_of(g: GameDataV, root: Seq<char>) -> Seq<char> {
    space_joined(
        seq![
            iwad_parameters_of(g, root),
            mods_parameters_of(g, root),
            savedir_argument_of(g, root),
            space_joined(g.additional_params),
        ],
    )
}

impl GameData {
    pub fn get_iwad_parameters(&self, root: &StoreRoot) -> (r: String)
        ensures
            r@ == iwad_parameters_of(self@, root@),
    {
        let args = get_arguments(AssetKind::Iwad, &self.iwads, root);
        join_with_spaces(&args)
    }

    pub fn get_mods_parameters(&self, root: &StoreRoot) -> (r: String)
        ensures
            r@ == mods_parameters_of(self@, root@),
    {
        let args = get_arguments(AssetKind::Mod, &self.mods, root);
        join_with_spaces(&args)
    }

    pub fn get_parameters(&self, root: &StoreRoot) -> (r: String)
        ensures
            r@ == parameters_of(self@, root@),
    {
        proof {
            reveal_strlit("-savedir \"");
            reveal_strlit("-savedir");
            reveal_strlit(" \"");
            reveal_strlit("\"");
        }
        let mut savedir_arg = String::new();
        savedir_arg.append("-savedir \"");
        let abs = self.get_absolute_savedir(root);
        savedir_arg.append(abs.as_str());
        savedir_arg.append("\"");
        proof {
            assert(savedir_arg@ =~= savedir_argument_of(self@, root@));
        }
        let mut parts: Vec<String> = Vec::new();
        parts.push(self.get_iwad_parameters(root));
        parts.push(self.get_mods_parameters(root));
        parts.push(savedir_arg);
        parts.push(join_with_spaces(&self.additional_params));
        let r = join_with_spaces(&parts);
        proof {
            assert(parts@.map_values(|s: String| s@) =~= seq![
                iwad_parameters_of(self@, root@),
                mods_parameters_of(self@, root@),
                savedir_argument_of(self@, root@),
                space_joined(self@.additional_params),
            ]);
        }
        r
    }

    pub fn get_savedir(&self) -> (r: &str)
        ensures
            r@ == self@.savedir,
    {
        self.savedir.as_str()
    }

    /// The absolute save directory against the store root.
    pub fn get_absolute_savedir(&self, root: &StoreRoot) -> (r: String)
        ensures
            r@ == absolute_of(root@, self@.savedir),
    {
        root.resolve(self.savedir.as_str())
    }

    pub fn set_savedir(&mut self, new: String)
        ensures
            final(self)@.savedir == new@,
            final(self)@.iwads == old(self)@.iwads,
            final(self)@.mods == old(self)@.mods,
            final(self)@.additional_params == old(self)@.additional_params,
    {
        self.savedir = new;
    }
}

impl Clone for GameData {
    fn clone(&self) -> (r: Self)
        ensures
            r@ == self@,
    {
        GameData {
            iwads: crate::utils::clone_assets(&self.iwads),
            mods: crate::utils::clone_assets(&self.mods),
            savedir: self.savedir.clone(),
            additional_params: crate::utils::clone_strings(&self.additional_params),
        }
    }
}


/// Argument assembly for the canonical loadout: with exactly one enabled
/// iwad and two enabled mods, the parameter text is the iwad argument,
/// the two mod arguments in list order, the quoted save-directory
/// argument, and the raw additional parameters, joined by single spaces;
/// nothing else contributes a token.
pub proof fn lemma_argument_assembly(
    g: GameDataV,
    root: Seq<char>,
    w: AssetV,
    m1: AssetV,
    m2: AssetV,
)
    requires
        g.iwads == seq![w],
        w.enabled,
        g.mods == seq![m1, m2],
        m1.enabled,
        m2.enabled,
    ensures
        parameters_of(g, root) == argument_of(AssetKind::Iwad, w, root) + seq![' ']
            + argument_of(AssetKind::Mod, m1, root) + seq![' '] + argument_of(
            AssetKind::Mod,
            m2,
            root,
        ) + seq![' '] + savedir_argument_of(g, root) + seq![' '] + space_joined(
            g.additional_params,
        ),
{
    let fw = |a: AssetV| argument_of(AssetKind::Iwad, a, root);
    let fm = |a: AssetV| argument_of(AssetKind::Mod, a, root);
    assert(enabled_of(seq![w]) =~= seq![w]) by {
        assert(seq![w].drop_last() =~= Seq::<AssetV>::empty());
        assert(enabled_of(Seq::<AssetV>::empty()) =~= Seq::<AssetV>::empty());
        assert(seq![w].last() == w);
    }
    assert(enabled_of(seq![m1, m2]) =~= seq![m1, m2]) by {
        assert(seq![m1, m2].drop_last() =~= seq![m1]);
        assert(seq![m1].drop_last() =~= Seq::<AssetV>::empty());
        assert(enabled_of(Seq::<AssetV>::empty()) =~= Seq::<AssetV>::empty());
        assert(seq![m1].last() == m1);
        assert(seq![m1, m2].last() == m2);
        assert(enabled_of(seq![m1]) =~= seq![m1]);
    }
    let iw_args = arguments_of(AssetKind::Iwad, g.iwads, root);
    let md_args = arguments_of(AssetKind::Mod, g.mods, root);
    assert(iw_args =~= seq![fw(w)]);
    assert(md_args =~= seq![fm(m1), fm(m2)]);
    assert(space_joined(iw_args) == fw(w)) by {
        assert(iw_args.len() == 1);
        assert(iw_args[0] == fw(w));
    }
    assert(space_joined(md_args) == fm(m1) + seq![' '] + fm(m2)) by {
        assert(md_args.drop_last() =~= seq![fm(m1)]);
        assert(md_args.last() == fm(m2));
        assert(space_joined(seq![fm(m1)]) == fm(m1));
    }
    let parts = seq![
        iwad_parameters_of(g, root),
        mods_parameters_of(g, root),
        savedir_argument_of(g, root),
        space_joined(g.additional_params),
    ];
    let p3 = parts.drop_last();
    let p2 = p3.drop_last();
    let p1 = p2.drop_last();
    assert(p1 =~= seq![iwad_parameters_of(g, root)]);
    assert(p2 =~= seq![iwad_parameters_of(g, root), mods_parameters_of(g, root)]);
    assert(space_joined(p1) == iwad_parameters_of(g, root));
    assert(space_joined(p2) == space_joined(p1) + seq![' '] + p2.last());
    assert(space_joined(p3) == space_joined(p2) + seq![' '] + p3.last());
    assert(space_joined(parts) == space_joined(p3) + seq![' '] + parts.last());
    assert(parameters_of(g, root) =~= argument_of(AssetKind::Iwad, w, root) + seq![' ']
        + argument_of(AssetKind::Mod, m1, root) + seq![' '] + argument_of(AssetKind::Mod, m2, root)
        + seq![' '] + savedir_argument_of(g, root) + seq![' '] + space_joined(
        g.additional_params,
    ));
}

} // verus!

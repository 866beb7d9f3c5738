//! An instance: metadata plus game data, the launch command derived from
//! them, and the bookkeeping of a play session.

use vstd::prelude::*;
use vstd::string::*;

use crate::game_data::{parameters_of, GameData, GameDataV};
use crate::metadata::{Metadata, MetadataV};
use crate::paths::joined;
use crate::store::StoreRoot;
use crate::time::{Duration, Timestamp};

verus! {

pub struct Instance {
    pub metadata: Metadata,
    pub gamedata: GameData,
}

/// The mathematical value of an instance.
#[verifier::ext_equal]
pub ghost struct InstanceV {
    pub metadata: MetadataV,
    pub gamedata: GameDataV,
}

impl View for Instance {
    type V = InstanceV;

    open spec fn view(&self) -> InstanceV {
        InstanceV { metadata: self.metadata@, gamedata: self.gamedata@ }
    }
}

/// The fixed name of the instance-definition entry of a package.
pub open spec fn spec_record_entry_name() -> Seq<char> {
    "instance.toml"@
}

/// The fixed name of the instance-definition entry of a package.
pub fn record_entry_name() -> (r: &'static str)
    ensures
        r@ == spec_record_entry_name(),
{
    "instance.toml"
}

/// The canonical save directory of an instance: `saves/<name>`.
pub open spec fn canonical_savedir(name: Seq<char>) -> Seq<char> {
    joined("saves"@, name)
}

impl Instance {
    /// The whole launch command: the executable, a space, then the
    /// parameter text of the game data.
    pub fn get_full_command(&self, gzdoom: &str, root: &StoreRoot) -> (r: String)
        ensures
            r@ == gzdoom@ + seq![' '] + parameters_of(self@.gamedata, root@),
    {
        proof {
            reveal_strlit(" ");
            assert(" "@ =~= seq![' ']);
        }
        let mut r = gzdoom.to_owned();
        r.append(" ");
        let params = self.gamedata.get_parameters(root);
        r.append(params.as_str());
        proof {
            assert(r@ =~= gzdoom@ + seq![' '] + parameters_of(self@.gamedata, root@));
        }
        r
    }

    /// Rewrites the save directory to its canonical store-relative form,
    /// `saves/<instance-name>`, regardless of what stood there before.
    pub fn initialize_savedir(&mut self)
        ensures
            final(self)@.gamedata.savedir == canonical_savedir(old(self)@.metadata.name),
            final(self)@.gamedata.iwads == old(self)@.gamedata.iwads,
            final(self)@.gamedata.mods == old(self)@.gamedata.mods,
            final(self)@.gamedata.additional_params == old(self)@.gamedata.additional_params,
            final(self)@.metadata == old(self)@.metadata,
    {
        let dir = crate::paths::join_path(crate::savedir::Savedir::get_dir_name(), self.metadata.name.as_str());
        self.gamedata.set_savedir(dir);
    }

    /// Records the start of a play session.
    pub fn begin_session(&mut self, now: Timestamp)
        ensures
            final(self)@.metadata.last_played == Some(now),
            final(self)@.metadata.name == old(self)@.metadata.name,
            final(self)@.metadata.image == old(self)@.metadata.image,
            final(self)@.metadata.playtime == old(self)@.metadata.playtime,
            final(self)@.metadata.last_session_duration
                == old(self)@.metadata.last_session_duration,
            final(self)@.gamedata == old(self)@.gamedata,
    {
        self.metadata.last_played = Some(now);
    }

    /// Records the end of a play session: the session duration is kept,
    /// and when it is known it is accumulated into the total play time.
    pub fn end_session(&mut self, elapsed: Option<Duration>)
        requires
            old(self)@.metadata.playtime.wf(),
            match elapsed {
                Some(d) => d.wf() && old(self)@.metadata.playtime.total_nanos() + d.total_nanos()
                    <= Duration { secs: u64::MAX, nanos: 999_999_999 }.total_nanos(),
                None => true,
            },
        ensures
            final(self)@.metadata.last_session_duration == elapsed,
            match elapsed {
                Some(d) => final(self)@.metadata.playtime.wf()
                    && final(self)@.metadata.playtime.total_nanos()
                    == old(self)@.metadata.playtime.total_nanos() + d.total_nanos(),
                None => final(self)@.metadata.playtime == old(self)@.metadata.playtime,
            },
            final(self)@.metadata.name == old(self)@.metadata.name,
            final(self)@.metadata.image == old(self)@.metadata.image,
            final(self)@.metadata.last_played == old(self)@.metadata.last_played,
            final(self)@.gamedata == old(self)@.gamedata,
    {
        self.metadata.last_session_duration = elapsed;
        if let Some(d) = elapsed {
            match self.metadata.playtime.checked_add(d) {
                Some(sum) => {
                    self.metadata.playtime = sum;
                },
                None => {
                    proof {
                        assert(false);
                    }
                },
            }
        }
    }
}

impl Clone for Instance {
    fn clone(&self) -> (r: Self)
        ensures
            r@ == self@,
    {
        Instance { metadata: self.metadata.clone(), gamedata: self.gamedata.clone() }
    }
}

} // verus!

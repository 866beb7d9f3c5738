//! Instance metadata: the name, an optional image, and the play history.

use vstd::prelude::*;
use vstd::string::*;

use crate::time::{Duration, Timestamp};

verus! {

pub struct Metadata {
    pub name: String,
    pub image: Option<String>,
    /// Accumulated play time over all sessions.
    pub playtime: Duration,
    pub last_played: Option<Timestamp>,
    pub last_session_duration: Option<Duration>,
}

/// The mathematical value of the metadata.
#[verifier::ext_equal]
pub ghost struct MetadataV {
    pub name: Seq<char>,
    pub image: Option<Seq<char>>,
    pub playtime: Duration,
    pub last_played: Option<Timestamp>,
    pub last_session_duration: Option<Duration>,
}

pub open spec fn opt_string_view(o: Option<String>) -> Option<Seq<char>> {
    match o {
        Some(s) => Some(s@),
        None => None,
    }
}

impl View for Metadata {
    type V = MetadataV;

    open spec fn view(&self) -> MetadataV {
        MetadataV {
            name: self.name@,
            image: opt_string_view(self.image),
            playtime: self.playtime,
            last_played: self.last_played,
            last_session_duration: self.last_session_duration,
        }
    }
}

impl MetadataV {
    /// Time values are kept normalized.
    pub open spec fn wf(self) -> bool {
        &&& self.playtime.wf()
        &&& match self.last_played {
            Some(t) => t.wf(),
            None => true,
        }
        &&& match self.last_session_duration {
            Some(d) => d.wf(),
            None => true,
        }
    }
}

impl Clone for Metadata {
    fn clone(&self) -> (r: Self)
        ensures
            r@ == self@,
    {
        Metadata {
            name: self.name.clone(),
            image: match &self.image {
                Some(s) => Some(s.clone()),
                None => None,
            },
            playtime: self.playtime,
            last_played: self.last_played,
            last_session_duration: self.last_session_duration,
        }
    }
}

} // verus!

//! The instance packager: exporting an instance with its referenced files
//! into a single archive, and rebuilding an instance from such an archive.
//!
//! Export and import work on plain values: the caller reads the referenced
//! files and hands their bytes in, and takes the extracted files out. What
//! an archive holds and what comes back out is pinned down over the
//! archive model of `crate::archive`.

use vstd::prelude::*;
use vstd::string::*;

use crate::archive::{
    archive_holds, names_of, reader_raw, zip_entry_data, zip_names, ArchiveError, ArchiveReader,
    ArchiveWriter, utf8_to_str, writer_entries,
};
use crate::asset::{relative_asset_path, Asset, AssetKind, AssetV};
use crate::game_data::{GameData, GameDataV};
use crate::instance::{canonical_savedir, spec_record_entry_name, record_entry_name, Instance,
    InstanceV};
use crate::metadata::MetadataV;
use crate::paths::{basename_of, joined, last_char_is, parent_of, ends_with_char, file_name_of,
    join_path, parent_dir_of};
use crate::record::{encoded_record, encode_record, parse_of_text, parse_record_text};
use crate::time::Duration;

verus! {

/// One file of the instance's save directory, by basename.
pub struct SaveFile {
    pub name: String,
    pub data: Vec<u8>,
}

/// The mathematical value of a save file.
#[verifier::ext_equal]
pub ghost struct SaveFileV {
    pub name: Seq<char>,
    pub data: Seq<u8>,
}

impl View for SaveFile {
    type V = SaveFileV;

    open spec fn view(&self) -> SaveFileV {
        SaveFileV { name: self.name@, data: self.data@ }
    }
}

/// One file an import wants placed into the managed store.
pub struct ExtractFile {
    /// The store-relative directory, possibly empty.
    pub rel_dir: String,
    /// The basename.
    pub name: String,
    pub data: Vec<u8>,
}

/// The mathematical value of a file to extract.
#[verifier::ext_equal]
pub ghost struct ExtractV {
    pub rel_dir: Seq<char>,
    pub name: Seq<char>,
    pub data: Seq<u8>,
}

impl View for ExtractFile {
    type V = ExtractV;

    open spec fn view(&self) -> ExtractV {
        ExtractV { rel_dir: self.rel_dir@, name: self.name@, data: self.data@ }
    }
}

/// The store-relative destination of an extracted file.
pub open spec fn rel_dest(f: ExtractV) -> Seq<char> {
    if f.rel_dir.len() == 0 {
        f.name
    } else {
        joined(f.rel_dir, f.name)
    }
}

/// Why an export was refused.
#[derive(Clone, Copy, PartialEq, Eq, Structural, Debug)]
pub enum PackError {
    /// An asset reference's path has no basename.
    MissingFileName,
    /// A name cannot be stored as an archive file entry.
    UnsupportedName,
    /// The archive container refused a write.
    Archive,
}

/// Why an import was refused.
#[derive(Clone, Copy, PartialEq, Eq, Structural, Debug)]
pub enum UnpackError {
    /// The bytes are not an archive.
    BadArchive,
    /// The archive has no instance-definition entry: not a valid package.
    MissingEntry,
    /// An entry's bytes could not be read back.
    EntryRead,
    /// The instance-definition entry is not a valid record.
    BadRecord,
}

/// A name no archive file entry can carry.
pub open spec fn bad_entry_tail(s: Seq<char>) -> bool {
    last_char_is(s, '/') || last_char_is(s, '\\')
}

/// A save file is carried by its basename: anything that is not a plain
/// file name is refused.
pub open spec fn bad_save_name(nm: Seq<char>) -> bool {
    ||| nm.len() == 0
    ||| crate::paths::contains_char(nm, '/')
    ||| last_char_is(nm, '\\')
    ||| nm == seq!['.']
    ||| nm == seq!['.', '.']
}

/// An asset rewritten to its canonical store-relative path,
/// `<category>/<basename>`, whatever path stood there — even one whose
/// path has no basename is moved under its category directory, so no
/// embedded path can escape the managed tree.
pub open spec fn canonical_asset(kind: AssetKind, a: AssetV) -> AssetV {
    AssetV { path: relative_asset_path(kind, basename_of(a.path)), enabled: a.enabled }
}

pub open spec fn rewritten_assets(kind: AssetKind, s: Seq<AssetV>) -> Seq<AssetV> {
    s.map_values(|a: AssetV| canonical_asset(kind, a))
}

/// Every asset reference rewritten to the canonical form of its category;
/// metadata and everything else kept.
pub open spec fn rewrite_assets(v: InstanceV) -> InstanceV {
    InstanceV {
        metadata: v.metadata,
        gamedata: GameDataV {
            iwads: rewritten_assets(AssetKind::Iwad, v.gamedata.iwads),
            mods: rewritten_assets(AssetKind::Mod, v.gamedata.mods),
            savedir: v.gamedata.savedir,
            additional_params: v.gamedata.additional_params,
        },
    }
}

/// The exported copy of an instance: canonical save directory, asset
/// paths rewritten store-relative, and the play history kept only when
/// `transfer_playtime` asks for it.
pub open spec fn packed_instance(iv: InstanceV, transfer_playtime: bool) -> InstanceV {
    InstanceV {
        metadata: MetadataV {
            name: iv.metadata.name,
            image: iv.metadata.image,
            playtime: if transfer_playtime {
                iv.metadata.playtime
            } else {
                Duration { secs: 0, nanos: 0 }
            },
            last_played: if transfer_playtime {
                iv.metadata.last_played
            } else {
                None
            },
            last_session_duration: if transfer_playtime {
                iv.metadata.last_session_duration
            } else {
                None
            },
        },
        gamedata: GameDataV {
            iwads: rewritten_assets(AssetKind::Iwad, iv.gamedata.iwads),
            mods: rewritten_assets(AssetKind::Mod, iv.gamedata.mods),
            savedir: canonical_savedir(iv.metadata.name),
            additional_params: iv.gamedata.additional_params,
        },
    }
}

/// The archive entries of the save directory's files.
pub open spec fn save_entries(savedir: Seq<char>, files: Seq<SaveFileV>) -> Seq<
    (Seq<char>, bool, Seq<u8>),
> {
    Seq::new(files.len(), |k: int| (joined(savedir, files[k].name), false, files[k].data))
}

/// The archive entries of one asset list, in order.
pub open spec fn asset_entries(kind: AssetKind, s: Seq<AssetV>, datas: Seq<Seq<u8>>) -> Seq<
    (Seq<char>, bool, Seq<u8>),
> {
    Seq::new(s.len(), |k: int| (relative_asset_path(kind, basename_of(s[k].path)), false, datas[k]))
}

/// All entries of an exported archive, in the order written: the two
/// category directories, the save directory and its files when asked for,
/// the mod files, the iwad files, and last the instance record.
pub open spec fn pack_entries(
    iv: InstanceV,
    transfer_saves: bool,
    transfer_playtime: bool,
    saves: Seq<SaveFileV>,
    mod_datas: Seq<Seq<u8>>,
    iwad_datas: Seq<Seq<u8>>,
) -> Seq<(Seq<char>, bool, Seq<u8>)> {
    let sd = canonical_savedir(iv.metadata.name);
    seq![
        ("mods"@ + seq!['/'], true, Seq::<u8>::empty()),
        ("iwads"@ + seq!['/'], true, Seq::<u8>::empty()),
    ] + (if transfer_saves {
        seq![(sd + seq!['/'], true, Seq::<u8>::empty())] + save_entries(sd, saves)
    } else {
        Seq::empty()
    }) + asset_entries(AssetKind::Mod, iv.gamedata.mods, mod_datas) + asset_entries(
        AssetKind::Iwad,
        iv.gamedata.iwads,
        iwad_datas,
    ) + seq![
        (
            spec_record_entry_name(),
            false,
            vstd::utf8::encode_utf8(encoded_record(packed_instance(iv, transfer_playtime))),
        ),
    ]
}

/// The input fault an export reports, if any: first a save name or the
/// save directory that no entry can carry, then a reference without a
/// basename, then a basename no entry can carry.
pub open spec fn pack_error_of(iv: InstanceV, transfer_saves: bool, saves: Seq<SaveFileV>) -> Option<
    PackError,
> {
    if transfer_saves && bad_entry_tail(canonical_savedir(iv.metadata.name)) {
        Some(PackError::UnsupportedName)
    } else if transfer_saves && exists|k: int|
        0 <= k < saves.len() && bad_save_name((#[trigger] saves[k]).name) {
        Some(PackError::UnsupportedName)
    } else if exists|k: int|
        0 <= k < iv.gamedata.mods.len() && basename_of((#[trigger] iv.gamedata.mods[k]).path).len()
            == 0 {
        Some(PackError::MissingFileName)
    } else if exists|k: int|
        0 <= k < iv.gamedata.iwads.len() && basename_of(
            (#[trigger] iv.gamedata.iwads[k]).path,
        ).len() == 0 {
        Some(PackError::MissingFileName)
    } else if exists|k: int|
        0 <= k < iv.gamedata.mods.len() && bad_entry_tail(
            basename_of((#[trigger] iv.gamedata.mods[k]).path),
        ) {
        Some(PackError::UnsupportedName)
    } else if exists|k: int|
        0 <= k < iv.gamedata.iwads.len() && bad_entry_tail(
            basename_of((#[trigger] iv.gamedata.iwads[k]).path),
        ) {
        Some(PackError::UnsupportedName)
    } else {
        None
    }
}


/// Whether an archive entry becomes an extracted file: file entries other
/// than the instance record, with a basename.
pub open spec fn keeps_entry(e: (Seq<char>, bool, Seq<u8>)) -> bool {
    !e.1 && e.0 != spec_record_entry_name() && basename_of(e.0).len() > 0
}

pub open spec fn extract_of(e: (Seq<char>, bool, Seq<u8>)) -> ExtractV {
    ExtractV { rel_dir: parent_of(e.0), name: basename_of(e.0), data: e.2 }
}

/// The files an import extracts from the given entries, in order.
pub open spec fn extract_files(es: Seq<(Seq<char>, bool, Seq<u8>)>) -> Seq<ExtractV>
    decreases es.len(),
{
    if es.len() == 0 {
        Seq::empty()
    } else {
        let r = extract_files(es.drop_last());
        if keeps_entry(es.last()) {
            r.push(extract_of(es.last()))
        } else {
            r
        }
    }
}

/// The entries of an archive whose every entry reads back.
pub open spec fn full_entries(b: Seq<u8>, ns: Seq<(Seq<char>, bool)>) -> Seq<
    (Seq<char>, bool, Seq<u8>),
> {
    Seq::new(ns.len(), |i: int| (ns[i].0, ns[i].1, zip_entry_data(b, i).unwrap()))
}

pub open spec fn has_instance_entry(ns: Seq<(Seq<char>, bool)>) -> bool {
    exists|j: int| 0 <= j < ns.len() && (#[trigger] ns[j]).0 == spec_record_entry_name()
}

/// The bytes are an archive without the fixed-name instance entry.
pub open spec fn no_instance_entry(b: Seq<u8>) -> bool {
    match zip_names(b) {
        Some(ns) => !has_instance_entry(ns),
        None => false,
    }
}

pub open spec fn all_entries_readable(b: Seq<u8>, n: int) -> bool {
    forall|i: int| 0 <= i < n ==> (#[trigger] zip_entry_data(b, i)) is Some
}

pub open spec fn record_entry_good(b: Seq<u8>, j: int) -> bool {
    match zip_entry_data(b, j) {
        Some(d) => vstd::utf8::valid_utf8(d) && parse_of_text(vstd::utf8::decode_utf8(d)) is Some,
        None => false,
    }
}

/// An archive an import is sure to accept: it lists exactly one
/// instance entry, every entry reads back, and the record parses.
pub open spec fn unpack_decodes(b: Seq<u8>) -> bool {
    match zip_names(b) {
        None => false,
        Some(ns) => {
            &&& has_instance_entry(ns)
            &&& forall|j1: int, j2: int|
                0 <= j1 < ns.len() && 0 <= j2 < ns.len() && (#[trigger] ns[j1]).0
                    == spec_record_entry_name() && (#[trigger] ns[j2]).0
                    == spec_record_entry_name() ==> j1 == j2
            &&& all_entries_readable(b, ns.len() as int)
            &&& forall|j: int|
                0 <= j < ns.len() && (#[trigger] ns[j]).0 == spec_record_entry_name()
                    ==> record_entry_good(b, j)
        },
    }
}

/// What a successful import of `b` returned: the record of some entry
/// stored under the fixed name, reference paths re-derived from basename
/// and category, and every other file entry extracted.
pub open spec fn unpack_outcome(b: Seq<u8>, inst: InstanceV, files: Seq<ExtractV>) -> bool {
    match zip_names(b) {
        None => false,
        Some(ns) => {
            &&& exists|j: int|
                {
                    &&& 0 <= j < ns.len()
                    &&& (#[trigger] ns[j]).0 == spec_record_entry_name()
                    &&& match zip_entry_data(b, j) {
                        Some(d) => vstd::utf8::valid_utf8(d) && (match parse_of_text(
                            vstd::utf8::decode_utf8(d),
                        ) {
                            Some(v) => inst == rewrite_assets(v),
                            None => false,
                        }),
                        None => false,
                    }
                }
            &&& all_entries_readable(b, ns.len() as int)
            &&& files == extract_files(full_entries(b, ns))
        },
    }
}

/// Each reference rewritten to `<category>/<basename>`, whatever path
/// stood there; one without a basename goes under the bare category
/// directory.
pub fn rewrite_assets_in(kind: AssetKind, assets: &Vec<Asset>) -> (r: Vec<Asset>)
    ensures
        r@.map_values(|a: Asset| a@) == rewritten_assets(
            kind,
            assets@.map_values(|a: Asset| a@),
        ),
{
    let ghost f = |a: AssetV| canonical_asset(kind, a);
    let ghost g = |a: Asset| a@;
    let ghost vs = assets@.map_values(g);
    let mut r: Vec<Asset> = Vec::new();
    let mut k: usize = 0;
    proof {
        assert(r@.map_values(g) =~= vs.take(0).map_values(f));
    }
    while k < assets.len()
        invariant
            k <= assets@.len(),
            vs == assets@.map_values(|a: Asset| a@),
            g == (|a: Asset| a@),
            f == (|a: AssetV| canonical_asset(kind, a)),
            r@.map_values(g) == vs.take(k as int).map_values(f),
        decreases assets@.len() - k,
    {
        let ghost r0 = r@;
        let a = &assets[k];
        let next: Asset = match a.get_filename() {
            Some(name) => Asset::new(Asset::get_relative_path(kind, name.as_str()), a.enabled),
            None => {
                proof {
                    reveal_strlit("");
                    assert(""@ =~= basename_of(a@.path));
                }
                Asset::new(Asset::get_relative_path(kind, ""), a.enabled)
            },
        };
        r.push(next);
        proof {
            assert(vs.take(k + 1 as int) =~= vs.take(k as int).push(vs[k as int]));
            crate::utils::lemma_map_values_push(vs.take(k as int), f, vs[k as int]);
            crate::utils::lemma_map_values_push(r0, g, r@.last());
            assert(g(r@.last()) == f(vs[k as int]));
        }
        k = k + 1;
    }
    proof {
        assert(vs.take(vs.len() as int) =~= vs);
    }
    r
}

impl Instance {
    /// Exports this instance as a complete package: the caller supplies
    /// the bytes of each referenced mod and iwad (in list order) and of
    /// the save directory's files, and receives the archive bytes.
    ///
    /// The live instance is not changed; the exported copy has the
    /// canonical save directory, store-relative reference paths, and its
    /// play history kept only when `transfer_playtime` asks for it.
    #[verifier::loop_isolation(false)]
    #[verifier::rlimit(100)]
    pub fn save_brimpkg(
        &self,
        transfer_saves: bool,
        transfer_playtime: bool,
        saves: &Vec<SaveFile>,
        mod_datas: &Vec<Vec<u8>>,
        iwad_datas: &Vec<Vec<u8>>,
    ) -> (r: Result<Vec<u8>, PackError>)
        requires
            mod_datas@.len() == self@.gamedata.mods.len(),
            iwad_datas@.len() == self@.gamedata.iwads.len(),
        ensures
            match r {
                Ok(b) => pack_error_of(
                    self@,
                    transfer_saves,
                    saves@.map_values(|f: SaveFile| f@),
                ) is None && archive_holds(
                    b@,
                    pack_entries(
                        self@,
                        transfer_saves,
                        transfer_playtime,
                        saves@.map_values(|f: SaveFile| f@),
                        mod_datas@.map_values(|d: Vec<u8>| d@),
                        iwad_datas@.map_values(|d: Vec<u8>| d@),
                    ),
                ),
                Err(e) => match pack_error_of(
                    self@,
                    transfer_saves,
                    saves@.map_values(|f: SaveFile| f@),
                ) {
                    Some(e0) => e == e0,
                    None => e == PackError::Archive,
                },
            },
    {
        let ghost savesv = saves@.map_values(|f: SaveFile| f@);
        let ghost mdv = mod_datas@.map_values(|d: Vec<u8>| d@);
        let ghost idv = iwad_datas@.map_values(|d: Vec<u8>| d@);
        let ghost modsv = self@.gamedata.mods;
        let ghost iwadsv = self@.gamedata.iwads;
        proof {
            reveal_strlit("saves");
            reveal_strlit("mods");
            reveal_strlit("iwads");
            reveal_strlit("instance.toml");
        }
        let sd = join_path(crate::savedir::Savedir::get_dir_name(), self.metadata.name.as_str());
        proof {
            assert(sd@ == canonical_savedir(self@.metadata.name));
        }
        if transfer_saves {
            if ends_with_char(sd.as_str(), '/') || ends_with_char(sd.as_str(), '\\') {
                proof {
                    assert(bad_entry_tail(canonical_savedir(self@.metadata.name)));
                    assert(pack_error_of(self@, transfer_saves, savesv) == Some(
                        PackError::UnsupportedName,
                    ));
                }
                return Err(PackError::UnsupportedName);
            }
            let mut k: usize = 0;
            while k < saves.len()
                invariant
                    k <= saves@.len(),
                    forall|j: int| 0 <= j < k ==> !bad_save_name((#[trigger] savesv[j]).name),
                decreases saves@.len() - k,
            {
                let nm = saves[k].name.as_str();
                let n_len = nm.unicode_len();
                let has_slash = matches!(crate::record::find_char_in(nm, '/'), Some(_));
                let is_dot = n_len == 1 && nm.get_char(0) == '.';
                let is_dotdot = n_len == 2 && nm.get_char(0) == '.' && nm.get_char(1) == '.';
                proof {
                    crate::record::lemma_find_char_present(nm@, '/');
                    assert(savesv[k as int] == saves@[k as int]@);
                    if is_dot {
                        assert(nm@ =~= seq!['.']);
                    }
                    if is_dotdot {
                        assert(nm@ =~= seq!['.', '.']);
                    }
                }
                if n_len == 0 || has_slash || ends_with_char(nm, '\\') || is_dot || is_dotdot {
                    proof {
                        assert(bad_save_name(savesv[k as int].name));
                        assert(pack_error_of(self@, transfer_saves, savesv) == Some(
                            PackError::UnsupportedName,
                        ));
                    }
                    return Err(PackError::UnsupportedName);
                }
                proof {
                    if nm@ == seq!['.'] {
                        assert(nm@.len() == 1 && nm@[0] == '.');
                    }
                    if nm@ == seq!['.', '.'] {
                        assert(nm@.len() == 2 && nm@[0] == '.' && nm@[1] == '.');
                    }
                    assert(!bad_save_name(savesv[k as int].name));
                }
                k = k + 1;
            }
        }
        let mut mod_names: Vec<String> = Vec::new();
        let mut k: usize = 0;
        while k < self.gamedata.mods.len()
            invariant
                k <= modsv.len(),
                mod_names@.len() == k,
                forall|j: int|
                    0 <= j < k ==> basename_of((#[trigger] modsv[j]).path).len() > 0
                        && mod_names@[j]@ == basename_of(modsv[j].path),
            decreases modsv.len() - k,
        {
            match self.gamedata.mods[k].get_filename() {
                None => {
                    proof {
                        assert(modsv[k as int] == self.gamedata.mods@[k as int]@);
                        assert(basename_of(modsv[k as int].path).len() == 0);
                        assert(pack_error_of(self@, transfer_saves, savesv) == Some(
                            PackError::MissingFileName,
                        ));
                    }
                    return Err(PackError::MissingFileName);
                },
                Some(f) => {
                    mod_names.push(f);
                },
            }
            k = k + 1;
        }
        let mut iwad_names: Vec<String> = Vec::new();
        let mut k2: usize = 0;
        while k2 < self.gamedata.iwads.len()
            invariant
                k2 <= iwadsv.len(),
                iwad_names@.len() == k2,
                forall|j: int|
                    0 <= j < k2 ==> basename_of((#[trigger] iwadsv[j]).path).len() > 0
                        && iwad_names@[j]@ == basename_of(iwadsv[j].path),
            decreases iwadsv.len() - k2,
        {
            match self.gamedata.iwads[k2].get_filename() {
                None => {
                    proof {
                        assert(iwadsv[k2 as int] == self.gamedata.iwads@[k2 as int]@);
                        assert(basename_of(iwadsv[k2 as int].path).len() == 0);
                        assert(pack_error_of(self@, transfer_saves, savesv) == Some(
                            PackError::MissingFileName,
                        ));
                    }
                    return Err(PackError::MissingFileName);
                },
                Some(f) => {
                    iwad_names.push(f);
                },
            }
            k2 = k2 + 1;
        }
        let mut k3: usize = 0;
        while k3 < mod_names.len()
            invariant
                k3 <= modsv.len(),
                forall|j: int|
                    0 <= j < k3 ==> !bad_entry_tail(basename_of((#[trigger] modsv[j]).path)),
            decreases modsv.len() - k3,
        {
            let nm = mod_names[k3].as_str();
            if ends_with_char(nm, '/') || ends_with_char(nm, '\\') {
                proof {
                    assert(bad_entry_tail(basename_of(modsv[k3 as int].path)));
                    assert(pack_error_of(self@, transfer_saves, savesv) == Some(
                        PackError::UnsupportedName,
                    ));
                }
                return Err(PackError::UnsupportedName);
            }
            k3 = k3 + 1;
        }
        let mut k4: usize = 0;
        while k4 < iwad_names.len()
            invariant
                k4 <= iwadsv.len(),
                forall|j: int|
                    0 <= j < k4 ==> !bad_entry_tail(basename_of((#[trigger] iwadsv[j]).path)),
            decreases iwadsv.len() - k4,
        {
            let nm = iwad_names[k4].as_str();
            if ends_with_char(nm, '/') || ends_with_char(nm, '\\') {
                proof {
                    assert(bad_entry_tail(basename_of(iwadsv[k4 as int].path)));
                    assert(pack_error_of(self@, transfer_saves, savesv) == Some(
                        PackError::UnsupportedName,
                    ));
                }
                return Err(PackError::UnsupportedName);
            }
            k4 = k4 + 1;
        }
        proof {
            assert(pack_error_of(self@, transfer_saves, savesv) is None);
        }
        let mut w = ArchiveWriter::new();
        if let Err(_) = w.add_directory("mods") {
            return Err(PackError::Archive);
        }
        if let Err(_) = w.add_directory("iwads") {
            return Err(PackError::Archive);
        }
        let ghost dirs = seq![
            ("mods"@ + seq!['/'], true, Seq::<u8>::empty()),
            ("iwads"@ + seq!['/'], true, Seq::<u8>::empty()),
        ];
        proof {
            assert(writer_entries(w) =~= dirs);
        }
        if transfer_saves {
            if let Err(_) = w.add_directory(sd.as_str()) {
                return Err(PackError::Archive);
            }
            let ghost pre = writer_entries(w);
            let mut k5: usize = 0;
            while k5 < saves.len()
                invariant
                    k5 <= saves@.len(),
                    writer_entries(w) == pre + save_entries(sd@, savesv).take(k5 as int),
                decreases saves@.len() - k5,
            {
                let path = join_path(sd.as_str(), saves[k5].name.as_str());
                proof {
                    assert(path@[path@.len() - 1] == savesv[k5 as int].name[savesv[k5
                        as int].name.len() - 1]);
                }
                let ghost w0 = writer_entries(w);
                if let Err(_) = w.add_file(path.as_str(), saves[k5].data.as_slice()) {
                    return Err(PackError::Archive);
                }
                proof {
                    assert(save_entries(sd@, savesv).take(k5 + 1 as int) =~= save_entries(
                        sd@,
                        savesv,
                    ).take(k5 as int).push((joined(sd@, savesv[k5 as int].name), false, savesv[k5
                        as int].data)));
                    assert(writer_entries(w) =~= pre + save_entries(sd@, savesv).take(
                        k5 + 1 as int,
                    ));
                }
                k5 = k5 + 1;
            }
            proof {
                assert(save_entries(sd@, savesv).take(savesv.len() as int) =~= save_entries(
                    sd@,
                    savesv,
                ));
            }
        }
        let ghost pre_mods = writer_entries(w);
        proof {
            assert(pre_mods =~= dirs + (if transfer_saves {
                seq![(sd@ + seq!['/'], true, Seq::<u8>::empty())] + save_entries(sd@, savesv)
            } else {
                Seq::empty()
            }));
        }
        let mut k6: usize = 0;
        while k6 < mod_names.len()
            invariant
                k6 <= modsv.len(),
                writer_entries(w) == pre_mods + asset_entries(AssetKind::Mod, modsv, mdv).take(
                    k6 as int,
                ),
            decreases modsv.len() - k6,
        {
            let path = Asset::get_relative_path(AssetKind::Mod, mod_names[k6].as_str());
            proof {
                crate::asset::lemma_dir_name_clean(AssetKind::Mod);
                assert(path@[path@.len() - 1] == basename_of(modsv[k6 as int].path)[basename_of(
                    modsv[k6 as int].path,
                ).len() - 1]);
            }
            if let Err(_) = w.add_file(path.as_str(), mod_datas[k6].as_slice()) {
                return Err(PackError::Archive);
            }
            proof {
                assert(asset_entries(AssetKind::Mod, modsv, mdv).take(k6 + 1 as int)
                    =~= asset_entries(AssetKind::Mod, modsv, mdv).take(k6 as int).push(
                    (relative_asset_path(AssetKind::Mod, basename_of(modsv[k6 as int].path)), false, mdv[k6 as int]),
                ));
                assert(writer_entries(w) =~= pre_mods + asset_entries(
                    AssetKind::Mod,
                    modsv,
                    mdv,
                ).take(k6 + 1 as int));
            }
            k6 = k6 + 1;
        }
        proof {
            assert(asset_entries(AssetKind::Mod, modsv, mdv).take(modsv.len() as int)
                =~= asset_entries(AssetKind::Mod, modsv, mdv));
        }
        let ghost pre_iwads = writer_entries(w);
        let mut k7: usize = 0;
        while k7 < iwad_names.len()
            invariant
                k7 <= iwadsv.len(),
                writer_entries(w) == pre_iwads + asset_entries(AssetKind::Iwad, iwadsv, idv).take(
                    k7 as int,
                ),
            decreases iwadsv.len() - k7,
        {
            let path = Asset::get_relative_path(AssetKind::Iwad, iwad_names[k7].as_str());
            proof {
                crate::asset::lemma_dir_name_clean(AssetKind::Iwad);
                assert(path@[path@.len() - 1] == basename_of(iwadsv[k7 as int].path)[basename_of(
                    iwadsv[k7 as int].path,
                ).len() - 1]);
            }
            if let Err(_) = w.add_file(path.as_str(), iwad_datas[k7].as_slice()) {
                return Err(PackError::Archive);
            }
            proof {
                assert(asset_entries(AssetKind::Iwad, iwadsv, idv).take(k7 + 1 as int)
                    =~= asset_entries(AssetKind::Iwad, iwadsv, idv).take(k7 as int).push(
                    (relative_asset_path(AssetKind::Iwad, basename_of(iwadsv[k7 as int].path)), false, idv[k7 as int]),
                ));
                assert(writer_entries(w) =~= pre_iwads + asset_entries(
                    AssetKind::Iwad,
                    iwadsv,
                    idv,
                ).take(k7 + 1 as int));
            }
            k7 = k7 + 1;
        }
        proof {
            assert(asset_entries(AssetKind::Iwad, iwadsv, idv).take(iwadsv.len() as int)
                =~= asset_entries(AssetKind::Iwad, iwadsv, idv));
        }
        let mut new_meta = self.metadata.clone();
        if !transfer_playtime {
            new_meta.playtime = Duration::zero();
            new_meta.last_played = None;
            new_meta.last_session_duration = None;
        }
        let packed = Instance {
            metadata: new_meta,
            gamedata: GameData {
                iwads: rewrite_assets_in(AssetKind::Iwad, &self.gamedata.iwads),
                mods: rewrite_assets_in(AssetKind::Mod, &self.gamedata.mods),
                savedir: sd,
                additional_params: crate::utils::clone_strings(&self.gamedata.additional_params),
            },
        };
        proof {
            assert(rewritten_assets(AssetKind::Mod, modsv) =~= modsv.map_values(
                |a: AssetV| canonical_asset(AssetKind::Mod, a),
            ));
            assert(packed@ =~= packed_instance(self@, transfer_playtime));
        }
        let rec = encode_record(&packed);
        let ghost w1 = writer_entries(w);
        if let Err(_) = w.add_file(record_entry_name(), rec.as_str().as_bytes()) {
            return Err(PackError::Archive);
        }
        proof {
            assert(writer_entries(w) =~= pack_entries(
                self@,
                transfer_saves,
                transfer_playtime,
                savesv,
                mdv,
                idv,
            ));
        }
        match w.finish() {
            Ok(b) => Ok(b),
            Err(_) => Err(PackError::Archive),
        }
    }
}


impl Instance {
    /// Rebuilds an instance from package bytes: the parsed record with
    /// every reference path re-derived from its basename and category,
    /// together with the archive's other file entries, for the caller to
    /// place into the managed store.
    ///
    /// An archive without the fixed-name instance entry is rejected as
    /// not a valid package.
    #[verifier::loop_isolation(false)]
    #[verifier::rlimit(100)]
    pub fn load_brimpkg(bytes: &[u8]) -> (r: Result<(Instance, Vec<ExtractFile>), UnpackError>)
        ensures
            (r matches Err(e) && e == UnpackError::BadArchive) <==> zip_names(bytes@) is None,
            (r matches Err(e) && e == UnpackError::MissingEntry) <==> no_instance_entry(bytes@),
            (r matches Err(e) && e == UnpackError::EntryRead) ==> match zip_names(bytes@) {
                Some(ns) => exists|i: int|
                    0 <= i < ns.len() && (#[trigger] zip_entry_data(bytes@, i)) is None,
                None => false,
            },
            (r matches Err(e) && e == UnpackError::BadRecord) ==> match zip_names(bytes@) {
                Some(ns) => exists|j: int|
                    0 <= j < ns.len() && (#[trigger] ns[j]).0 == spec_record_entry_name()
                        && !record_entry_good(bytes@, j),
                None => false,
            },
            unpack_decodes(bytes@) ==> r is Ok,
            match r {
                Ok((inst, files)) => unpack_outcome(
                    bytes@,
                    inst@,
                    files@.map_values(|f: ExtractFile| f@),
                ),
                Err(_) => true,
            },
    {
        let mut ar = match ArchiveReader::open(bytes) {
            Ok(a) => a,
            Err(_) => {
                return Err(UnpackError::BadArchive);
            },
        };
        let ghost ns = zip_names(bytes@).unwrap();
        proof {
            reveal_strlit("instance.toml");
            let nm = spec_record_entry_name();
            assert forall|i: int|
                0 <= i < nm.len() implies crate::archive::is_ascii_char(#[trigger] nm[i]) by {
                assert('i' as u32 == 105);
                assert('n' as u32 == 110);
                assert('s' as u32 == 115);
                assert('t' as u32 == 116);
                assert('a' as u32 == 97);
                assert('c' as u32 == 99);
                assert('e' as u32 == 101);
                assert('.' as u32 == 46);
                assert('o' as u32 == 111);
                assert('m' as u32 == 109);
                assert('l' as u32 == 108);
            }
        }
        let record_bytes = match ar.entry_by_name(record_entry_name()) {
            Ok(d) => d,
            Err(ArchiveError::NotFound) => {
                return Err(UnpackError::MissingEntry);
            },
            Err(ArchiveError::Corrupt) => {
                proof {
                    let j = choose|j: int|
                        0 <= j < ns.len() && (#[trigger] ns[j]).0 == spec_record_entry_name()
                            && zip_entry_data(bytes@, j) is None;
                    assert(!all_entries_readable(bytes@, ns.len() as int));
                }
                return Err(UnpackError::EntryRead);
            },
        };
        let ghost j0 = choose|j: int|
            0 <= j < ns.len() && (#[trigger] ns[j]).0 == spec_record_entry_name()
                && zip_entry_data(bytes@, j) == Some(record_bytes@);
        let text = match utf8_to_str(record_bytes.as_slice()) {
            Some(t) => t,
            None => {
                proof {
                    assert(!record_entry_good(bytes@, j0));
                    assert(zip_entry_data(bytes@, j0) is Some);
                }
                return Err(UnpackError::BadRecord);
            },
        };
        let inst0 = match parse_record_text(text) {
            Some(i) => i,
            None => {
                proof {
                    assert(!record_entry_good(bytes@, j0));
                }
                return Err(UnpackError::BadRecord);
            },
        };
        let ghost v0 = inst0@;
        let n = ar.len();
        let ghost full = full_entries(bytes@, ns);
        let mut files: Vec<ExtractFile> = Vec::new();
        let mut i: usize = 0;
        while i < n
            invariant
                i <= n,
                reader_raw(ar) == bytes@,
                files@.map_values(|f: ExtractFile| f@) == extract_files(full.take(i as int)),
                forall|k: int| 0 <= k < i ==> (#[trigger] zip_entry_data(bytes@, k)) is Some,
            decreases n - i,
        {
            let (nm, dir, data) = match ar.entry(i) {
                Ok(e) => e,
                Err(_) => {
                    proof {
                        assert(!all_entries_readable(bytes@, ns.len() as int));
                    }
                    return Err(UnpackError::EntryRead);
                },
            };
            proof {
                assert(full.take(i + 1 as int).drop_last() =~= full.take(i as int));
                assert(full.take(i + 1 as int).last() == full[i as int]);
                assert(full[i as int] == (nm@, dir, data@));
            }
            let ghost files0 = files@;
            if dir {
                proof {
                    assert(!keeps_entry(full[i as int]));
                }
            } else if crate::record::str_eq_in(nm.as_str(), record_entry_name()) {
                proof {
                    assert(!keeps_entry(full[i as int]));
                }
            } else {
                match file_name_of(nm.as_str()) {
                    None => {
                        proof {
                            assert(!keeps_entry(full[i as int]));
                        }
                    },
                    Some(fname) => {
                        let pd = parent_dir_of(nm.as_str());
                        files.push(ExtractFile { rel_dir: pd, name: fname, data });
                        proof {
                            assert(keeps_entry(full[i as int]));
                            crate::utils::lemma_map_values_push(
                                files0,
                                |f: ExtractFile| f@,
                                files@.last(),
                            );
                            assert(files@.last()@ =~= extract_of(full[i as int]));
                            assert(files@.map_values(|f: ExtractFile| f@) =~= extract_files(
                                full.take(i + 1 as int),
                            ));
                        }
                    },
                }
            }
            i = i + 1;
        }
        let riwads = rewrite_assets_in(AssetKind::Iwad, &inst0.gamedata.iwads);
        let rmods = rewrite_assets_in(AssetKind::Mod, &inst0.gamedata.mods);
        let inst = Instance {
            metadata: inst0.metadata,
            gamedata: GameData {
                iwads: riwads,
                mods: rmods,
                savedir: inst0.gamedata.savedir,
                additional_params: inst0.gamedata.additional_params,
            },
        };
        proof {
            assert(inst@ =~= rewrite_assets(v0));
            assert(full.take(n as int) =~= full);
            assert(unpack_outcome(
                bytes@,
                inst@,
                files@.map_values(|f: ExtractFile| f@),
            )) by {
                assert(0 <= j0 < ns.len() && ns[j0].0 == spec_record_entry_name()
                    && zip_entry_data(bytes@, j0) == Some(record_bytes@));
                assert(vstd::utf8::valid_utf8(record_bytes@));
                assert(parse_of_text(vstd::utf8::decode_utf8(record_bytes@)) == Some(v0));
            }
        }
        Ok((inst, files))
    }
}

/// The extracted files whose destination is not already present: an
/// import never overwrites an existing file.
pub open spec fn new_files(fs: Seq<ExtractV>, existing: Seq<Seq<char>>) -> Seq<ExtractV>
    decreases fs.len(),
{
    if fs.len() == 0 {
        Seq::empty()
    } else {
        let r = new_files(fs.drop_last(), existing);
        if !existing.contains(rel_dest(fs.last())) {
            r.push(fs.last())
        } else {
            r
        }
    }
}

/// Keeps, in order, the extracted files whose store-relative destination
/// does not stand in `existing`; a file already present at its
/// destination is never written again.
pub fn files_to_write(files: &Vec<ExtractFile>, existing: &Vec<String>) -> (r: Vec<ExtractFile>)
    ensures
        r@.map_values(|f: ExtractFile| f@) == new_files(
            files@.map_values(|f: ExtractFile| f@),
            existing@.map_values(|s: String| s@),
        ),
{
    let ghost fs = files@.map_values(|f: ExtractFile| f@);
    let ghost ex = existing@.map_values(|s: String| s@);
    let mut r: Vec<ExtractFile> = Vec::new();
    let mut i: usize = 0;
    proof {
        assert(r@.map_values(|f: ExtractFile| f@) =~= new_files(fs.take(0), ex));
    }
    while i < files.len()
        invariant
            i <= files@.len(),
            fs == files@.map_values(|f: ExtractFile| f@),
            ex == existing@.map_values(|s: String| s@),
            r@.map_values(|f: ExtractFile| f@) == new_files(fs.take(i as int), ex),
        decreases files@.len() - i,
    {
        let f = &files[i];
        let dest: String = if f.rel_dir.as_str().unicode_len() == 0 {
            f.name.clone()
        } else {
            join_path(f.rel_dir.as_str(), f.name.as_str())
        };
        proof {
            assert(dest@ == rel_dest(fs[i as int]));
        }
        let mut present = false;
        let mut k: usize = 0;
        while k < existing.len()
            invariant
                k <= existing@.len(),
                ex == existing@.map_values(|s: String| s@),
                present == exists|j: int| 0 <= j < k && ex[j] == dest@,
            decreases existing@.len() - k,
        {
            if crate::record::str_eq_in(existing[k].as_str(), dest.as_str()) {
                proof {
                    assert(ex[k as int] == existing@[k as int]@);
                    assert(ex[k as int] == dest@);
                }
                present = true;
            } else {
                proof {
                    assert(ex[k as int] == existing@[k as int]@);
                }
            }
            k = k + 1;
        }
        let ghost r0 = r@;
        if !present {
            let copy = ExtractFile {
                rel_dir: f.rel_dir.clone(),
                name: f.name.clone(),
                data: crate::package::clone_bytes(&f.data),
            };
            r.push(copy);
        }
        proof {
            assert(present == ex.contains(dest@));
            assert(fs.take(i + 1 as int).drop_last() =~= fs.take(i as int));
            assert(fs.take(i + 1 as int).last() == fs[i as int]);
            if !present {
                crate::utils::lemma_map_values_push(r0, |f: ExtractFile| f@, r@.last());
                assert(r@.last()@ =~= fs[i as int]);
                assert(r@.map_values(|f: ExtractFile| f@) =~= new_files(fs.take(i + 1 as int), ex));
            }
        }
        i = i + 1;
    }
    proof {
        assert(fs.take(fs.len() as int) =~= fs);
    }
    r
}

/// A byte buffer copied value for value.
pub fn clone_bytes(v: &Vec<u8>) -> (r: Vec<u8>)
    ensures
        r@ == v@,
{
    let mut r: Vec<u8> = Vec::new();
    let mut i: usize = 0;
    while i < v.len()
        invariant
            i <= v@.len(),
            r@ == v@.take(i as int),
        decreases v@.len() - i,
    {
        r.push(v[i]);
        proof {
            assert(v@.take(i + 1 as int) =~= v@.take(i as int).push(v@[i as int]));
        }
        i = i + 1;
    }
    proof {
        assert(v@.take(v@.len() as int) =~= v@);
    }
    r
}

/// No selected file's destination stands among the existing ones: the
/// non-destructive import policy.
pub proof fn lemma_import_never_overwrites(fs: Seq<ExtractV>, existing: Seq<Seq<char>>)
    ensures
        forall|k: int|
            0 <= k < new_files(fs, existing).len() ==> !existing.contains(
                rel_dest(#[trigger] new_files(fs, existing)[k]),
            ),
    decreases fs.len(),
{
    if fs.len() > 0 {
        lemma_import_never_overwrites(fs.drop_last(), existing);
        let r = new_files(fs.drop_last(), existing);
        assert forall|k: int|
            0 <= k < new_files(fs, existing).len() implies !existing.contains(
            rel_dest(#[trigger] new_files(fs, existing)[k]),
        ) by {
            if !existing.contains(rel_dest(fs.last())) {
                if k < r.len() {
                    assert(new_files(fs, existing)[k] == r[k]);
                } else {
                    assert(new_files(fs, existing)[k] == fs.last());
                }
            } else {
                assert(new_files(fs, existing)[k] == r[k]);
            }
        }
    }
}


/// Rewriting the exported copy changes nothing: its reference paths are
/// already in canonical store-relative form.
pub proof fn lemma_rewrite_packed_idempotent(iv: InstanceV, transfer_playtime: bool)
    requires
        forall|k: int|
            0 <= k < iv.gamedata.mods.len() ==> basename_of(
                (#[trigger] iv.gamedata.mods[k]).path,
            ).len() > 0,
        forall|k: int|
            0 <= k < iv.gamedata.iwads.len() ==> basename_of(
                (#[trigger] iv.gamedata.iwads[k]).path,
            ).len() > 0,
    ensures
        rewrite_assets(packed_instance(iv, transfer_playtime)) == packed_instance(
            iv,
            transfer_playtime,
        ),
{
    let p = packed_instance(iv, transfer_playtime);
    assert forall|k: int| 0 <= k < p.gamedata.mods.len() implies canonical_asset(
        AssetKind::Mod,
        #[trigger] p.gamedata.mods[k],
    ) == p.gamedata.mods[k] by {
        let a = iv.gamedata.mods[k];
        let bn = basename_of(a.path);
        crate::paths::lemma_basename_clean(a.path);
        crate::asset::lemma_relative_path_split(AssetKind::Mod, bn);
    }
    assert forall|k: int| 0 <= k < p.gamedata.iwads.len() implies canonical_asset(
        AssetKind::Iwad,
        #[trigger] p.gamedata.iwads[k],
    ) == p.gamedata.iwads[k] by {
        let a = iv.gamedata.iwads[k];
        let bn = basename_of(a.path);
        crate::paths::lemma_basename_clean(a.path);
        crate::asset::lemma_relative_path_split(AssetKind::Iwad, bn);
    }
    assert(rewritten_assets(AssetKind::Mod, p.gamedata.mods) =~= p.gamedata.mods);
    assert(rewritten_assets(AssetKind::Iwad, p.gamedata.iwads) =~= p.gamedata.iwads);
    assert(rewrite_assets(p) =~= p);
}

/// Category fidelity: after the canonical rewrite, every reference —
/// whatever path the archive embedded, absolute or degenerate — sits
/// directly under its category directory, and none is absolute.
pub proof fn lemma_category_fidelity(v: InstanceV)
    ensures
        forall|k: int|
            0 <= k < v.gamedata.mods.len() ==> parent_of(
                #[trigger] rewrite_assets(v).gamedata.mods[k].path,
            ) == "mods"@ && !crate::paths::is_absolute_path(rewrite_assets(v).gamedata.mods[k].path),
        forall|k: int|
            0 <= k < v.gamedata.iwads.len() ==> parent_of(
                #[trigger] rewrite_assets(v).gamedata.iwads[k].path,
            ) == "iwads"@ && !crate::paths::is_absolute_path(
                rewrite_assets(v).gamedata.iwads[k].path,
            ),
{
    reveal_strlit("mods");
    reveal_strlit("iwads");
    assert forall|k: int| 0 <= k < v.gamedata.mods.len() implies parent_of(
        #[trigger] rewrite_assets(v).gamedata.mods[k].path,
    ) == "mods"@ && !crate::paths::is_absolute_path(rewrite_assets(v).gamedata.mods[k].path) by {
        let a = v.gamedata.mods[k];
        crate::paths::lemma_basename_clean(a.path);
        crate::paths::lemma_parent_of_joined("mods"@, basename_of(a.path));
        assert(rewrite_assets(v).gamedata.mods[k] == canonical_asset(AssetKind::Mod, a));
        assert(canonical_asset(AssetKind::Mod, a).path[0] == 'm');
    }
    assert forall|k: int| 0 <= k < v.gamedata.iwads.len() implies parent_of(
        #[trigger] rewrite_assets(v).gamedata.iwads[k].path,
    ) == "iwads"@ && !crate::paths::is_absolute_path(rewrite_assets(v).gamedata.iwads[k].path) by {
        let a = v.gamedata.iwads[k];
        crate::paths::lemma_basename_clean(a.path);
        crate::paths::lemma_parent_of_joined("iwads"@, basename_of(a.path));
        assert(rewrite_assets(v).gamedata.iwads[k] == canonical_asset(AssetKind::Iwad, a));
        assert(canonical_asset(AssetKind::Iwad, a).path[0] == 'i');
    }
}

/// Round trip: importing an exported package always succeeds and yields
/// exactly the exported copy of the instance — same enabled flags and
/// reference basenames, the canonical save directory, and the play
/// history exactly when `transfer_playtime` kept it.
#[verifier::rlimit(100)]
pub proof fn lemma_pack_round_trip(
    iv: InstanceV,
    transfer_saves: bool,
    transfer_playtime: bool,
    saves: Seq<SaveFileV>,
    mod_datas: Seq<Seq<u8>>,
    iwad_datas: Seq<Seq<u8>>,
    b: Seq<u8>,
)
    requires
        crate::record::encodable(iv),
        mod_datas.len() == iv.gamedata.mods.len(),
        iwad_datas.len() == iv.gamedata.iwads.len(),
        pack_error_of(iv, transfer_saves, saves) is None,
        archive_holds(b, pack_entries(iv, transfer_saves, transfer_playtime, saves, mod_datas, iwad_datas)),
    ensures
        unpack_decodes(b),
        forall|inst: InstanceV, files: Seq<ExtractV>|
            #[trigger] unpack_outcome(b, inst, files) ==> inst == packed_instance(
                iv,
                transfer_playtime,
            ) && files == extract_files(
                pack_entries(iv, transfer_saves, transfer_playtime, saves, mod_datas, iwad_datas),
            ),
{
    let es = pack_entries(iv, transfer_saves, transfer_playtime, saves, mod_datas, iwad_datas);
    let ns = names_of(es);
    let clone = packed_instance(iv, transfer_playtime);
    let enc = vstd::utf8::encode_utf8(encoded_record(clone));
    let fname = spec_record_entry_name();
    let sd = canonical_savedir(iv.metadata.name);
    let sb: int = if transfer_saves {
        1 + saves.len() as int
    } else {
        0
    };
    let m0: int = 2 + sb;
    let i0: int = m0 + mod_datas.len() as int;
    let last: int = i0 + iwad_datas.len() as int;
    assert(es.len() == last + 1);
    assert(es[last] == (fname, false, enc));
    reveal_strlit("instance.toml");
    reveal_strlit("saves");
    reveal_strlit("mods");
    reveal_strlit("iwads");
    assert forall|j: int| 0 <= j < last implies (#[trigger] ns[j]).0 != fname by {
        assert(ns[j].0 == es[j].0);
        if j == 0 {
            assert(es[j].0 == "mods"@ + seq!['/']);
            assert(es[j].0[es[j].0.len() - 1] == '/');
            assert(fname[fname.len() - 1] == 'l');
            if es[j].0 == fname {
                assert(es[j].0[es[j].0.len() - 1] == fname[fname.len() - 1]);
            }
        } else if j == 1 {
            assert(es[j].0 == "iwads"@ + seq!['/']);
            assert(es[j].0[es[j].0.len() - 1] == '/');
            if es[j].0 == fname {
                assert(es[j].0[es[j].0.len() - 1] == fname[fname.len() - 1]);
            }
        } else if j < m0 {
            if j == 2 {
                assert(es[j].0 == sd + seq!['/']);
                assert(es[j].0[es[j].0.len() - 1] == '/');
                if es[j].0 == fname {
                    assert(es[j].0[es[j].0.len() - 1] == fname[fname.len() - 1]);
                }
            } else {
                assert(es[j] == save_entries(sd, saves)[j - 3]);
                assert(es[j].0 == joined(sd, saves[j - 3].name));
                assert(es[j].0[0] == sd[0]);
                assert(sd[0] == 's');
                assert(fname[0] == 'i');
                if es[j].0 == fname {
                    assert(es[j].0[0] == fname[0]);
                }
            }
        } else if j < i0 {
            assert(es[j] == asset_entries(AssetKind::Mod, iv.gamedata.mods, mod_datas)[j - m0]);
            assert(es[j].0 == joined("mods"@, basename_of(iv.gamedata.mods[j - m0].path)));
            assert(es[j].0[0] == 'm');
            assert(fname[0] == 'i');
            if es[j].0 == fname {
                assert(es[j].0[0] == fname[0]);
            }
        } else {
            assert(es[j] == asset_entries(AssetKind::Iwad, iv.gamedata.iwads, iwad_datas)[j - i0]);
            assert(es[j].0 == joined("iwads"@, basename_of(iv.gamedata.iwads[j - i0].path)));
            assert(es[j].0[1] == 'w');
            assert(fname[1] == 'n');
            if es[j].0 == fname {
                assert(es[j].0[1] == fname[1]);
            }
        }
    }
    assert(ns[last].0 == fname);
    assert(ns.len() == es.len());
    assert(all_entries_readable(b, ns.len() as int)) by {
        assert(forall|i: int|
            0 <= i < es.len() ==> #[trigger] zip_entry_data(b, i) == Some(es[i].2));
    }
    assert(crate::record::encodable(clone));
    vstd::utf8::encode_utf8_valid_utf8(encoded_record(clone));
    vstd::utf8::encode_utf8_decode_utf8(encoded_record(clone));
    crate::record::lemma_record_round_trip(clone);
    assert(zip_entry_data(b, last) == Some(enc));
    assert(record_entry_good(b, last));
    assert(unpack_decodes(b));
    assert forall|inst: InstanceV, files: Seq<ExtractV>|
        #[trigger] unpack_outcome(b, inst, files) implies inst == packed_instance(
        iv,
        transfer_playtime,
    ) && files == extract_files(es) by {
        assert(full_entries(b, ns) =~= es);
        let j = choose|j: int|
            {
                &&& 0 <= j < ns.len()
                &&& (#[trigger] ns[j]).0 == fname
                &&& match zip_entry_data(b, j) {
                    Some(d) => vstd::utf8::valid_utf8(d) && (match parse_of_text(
                        vstd::utf8::decode_utf8(d),
                    ) {
                        Some(v) => inst == rewrite_assets(v),
                        None => false,
                    }),
                    None => false,
                }
            };
        assert(j == last);
        assert(zip_entry_data(b, j) == Some(enc));
        assert(parse_of_text(vstd::utf8::decode_utf8(enc)) == Some(clone));
        assert(inst == rewrite_assets(clone));
        assert forall|k: int|
            0 <= k < iv.gamedata.mods.len() implies basename_of(
            (#[trigger] iv.gamedata.mods[k]).path,
        ).len() > 0 by {}
        lemma_rewrite_packed_idempotent(iv, transfer_playtime);
    }
}

/// Playtime suppression: importing a package made without the play
/// history yields zero playtime and no last-played or last-session
/// values, whatever the original held.
pub proof fn lemma_playtime_suppression(
    iv: InstanceV,
    transfer_saves: bool,
    saves: Seq<SaveFileV>,
    mod_datas: Seq<Seq<u8>>,
    iwad_datas: Seq<Seq<u8>>,
    b: Seq<u8>,
)
    requires
        crate::record::encodable(iv),
        mod_datas.len() == iv.gamedata.mods.len(),
        iwad_datas.len() == iv.gamedata.iwads.len(),
        pack_error_of(iv, transfer_saves, saves) is None,
        archive_holds(b, pack_entries(iv, transfer_saves, false, saves, mod_datas, iwad_datas)),
    ensures
        unpack_decodes(b),
        forall|inst: InstanceV, files: Seq<ExtractV>|
            #[trigger] unpack_outcome(b, inst, files) ==> inst.metadata.playtime == (Duration {
                secs: 0,
                nanos: 0,
            }) && inst.metadata.last_played is None && inst.metadata.last_session_duration is None,
{
    lemma_pack_round_trip(iv, transfer_saves, false, saves, mod_datas, iwad_datas, b);
}



proof fn lemma_extract_files_single(e: (Seq<char>, bool, Seq<u8>))
    ensures
        extract_files(seq![e]) == if keeps_entry(e) {
            seq![extract_of(e)]
        } else {
            Seq::<ExtractV>::empty()
        },
{
    assert(seq![e].drop_last() =~= Seq::<(Seq<char>, bool, Seq<u8>)>::empty());
    assert(extract_files(Seq::<(Seq<char>, bool, Seq<u8>)>::empty()) == Seq::<ExtractV>::empty());
    assert(seq![e].last() == e);
    if keeps_entry(e) {
        assert(extract_files(seq![e]) =~= seq![extract_of(e)]);
    }
}

pub proof fn lemma_extract_files_append(a: Seq<(Seq<char>, bool, Seq<u8>)>, b: Seq<(Seq<char>, bool, Seq<u8>)>)
    ensures
        extract_files(a + b) == extract_files(a) + extract_files(b),
    decreases b.len(),
{
    if b.len() == 0 {
        assert(a + b =~= a);
        assert(extract_files(a) + extract_files(b) =~= extract_files(a));
    } else {
        assert((a + b).drop_last() =~= a + b.drop_last());
        assert((a + b).last() == b.last());
        lemma_extract_files_append(a, b.drop_last());
        if keeps_entry(b.last()) {
            assert((extract_files(a) + extract_files(b.drop_last())).push(extract_of(b.last()))
                =~= extract_files(a) + extract_files(b.drop_last()).push(extract_of(b.last())));
        }
        assert(extract_files(a + b) =~= extract_files(a) + extract_files(b));
    }
}

proof fn lemma_extract_files_all_kept(es: Seq<(Seq<char>, bool, Seq<u8>)>)
    requires
        forall|k: int| 0 <= k < es.len() ==> keeps_entry(#[trigger] es[k]),
    ensures
        extract_files(es) == Seq::new(es.len(), |k: int| extract_of(es[k])),
    decreases es.len(),
{
    if es.len() > 0 {
        lemma_extract_files_all_kept(es.drop_last());
        assert(Seq::new(es.drop_last().len(), |k: int| extract_of(es.drop_last()[k])) =~= Seq::new(
            (es.len() - 1) as nat,
            |k: int| extract_of(es[k]),
        ));
        assert(extract_files(es) =~= Seq::new(es.len(), |k: int| extract_of(es[k])));
    } else {
        assert(extract_files(es) =~= Seq::new(es.len(), |k: int| extract_of(es[k])));
    }
}

/// What extracting an exported package yields: the save files when they
/// were transferred, then each mod file under `mods`, then each iwad
/// file under `iwads`, all with the bytes that were handed to the export.
#[verifier::rlimit(100)]
pub proof fn lemma_pack_extracts(
    iv: InstanceV,
    transfer_saves: bool,
    transfer_playtime: bool,
    saves: Seq<SaveFileV>,
    mod_datas: Seq<Seq<u8>>,
    iwad_datas: Seq<Seq<u8>>,
)
    requires
        mod_datas.len() == iv.gamedata.mods.len(),
        iwad_datas.len() == iv.gamedata.iwads.len(),
        pack_error_of(iv, transfer_saves, saves) is None,
    ensures
        extract_files(
            pack_entries(iv, transfer_saves, transfer_playtime, saves, mod_datas, iwad_datas),
        ) == (if transfer_saves {
            Seq::new(
                saves.len(),
                |k: int| extract_of(save_entries(canonical_savedir(iv.metadata.name), saves)[k]),
            )
        } else {
            Seq::empty()
        }) + Seq::new(
            mod_datas.len(),
            |k: int| ExtractV {
                rel_dir: "mods"@,
                name: basename_of(iv.gamedata.mods[k].path),
                data: mod_datas[k],
            },
        ) + Seq::new(
            iwad_datas.len(),
            |k: int| ExtractV {
                rel_dir: "iwads"@,
                name: basename_of(iv.gamedata.iwads[k].path),
                data: iwad_datas[k],
            },
        ),
{
    reveal_strlit("instance.toml");
    reveal_strlit("saves");
    reveal_strlit("mods");
    reveal_strlit("iwads");
    let fname = spec_record_entry_name();
    let sd = canonical_savedir(iv.metadata.name);
    let dirs = seq![
        ("mods"@ + seq!['/'], true, Seq::<u8>::empty()),
        ("iwads"@ + seq!['/'], true, Seq::<u8>::empty()),
    ];
    let save_block: Seq<(Seq<char>, bool, Seq<u8>)> = if transfer_saves {
        seq![(sd + seq!['/'], true, Seq::<u8>::empty())] + save_entries(sd, saves)
    } else {
        Seq::empty()
    };
    let me = asset_entries(AssetKind::Mod, iv.gamedata.mods, mod_datas);
    let ie = asset_entries(AssetKind::Iwad, iv.gamedata.iwads, iwad_datas);
    let rec = seq![
        (fname, false, vstd::utf8::encode_utf8(encoded_record(packed_instance(iv, transfer_playtime)))),
    ];
    let es = pack_entries(iv, transfer_saves, transfer_playtime, saves, mod_datas, iwad_datas);
    assert(es =~= dirs + save_block + me + ie + rec);
    lemma_extract_files_append(dirs + save_block + me + ie, rec);
    lemma_extract_files_append(dirs + save_block + me, ie);
    lemma_extract_files_append(dirs + save_block, me);
    lemma_extract_files_append(dirs, save_block);
    // The directory markers and the record entry extract to nothing.
    assert(extract_files(dirs) =~= Seq::<ExtractV>::empty()) by {
        assert(dirs =~= seq![dirs[0]] + seq![dirs[1]]);
        lemma_extract_files_append(seq![dirs[0]], seq![dirs[1]]);
        lemma_extract_files_single(dirs[0]);
        lemma_extract_files_single(dirs[1]);
        assert(!keeps_entry(dirs[0]));
        assert(!keeps_entry(dirs[1]));
    }
    assert(extract_files(rec) =~= Seq::<ExtractV>::empty()) by {
        lemma_extract_files_single(rec[0]);
        assert(rec =~= seq![rec[0]]);
        assert(!keeps_entry(rec[0]));
    }
    // Every mod and iwad entry is extracted under its category directory.
    assert forall|k: int| 0 <= k < me.len() implies keeps_entry(#[trigger] me[k]) by {
        let bn = basename_of(iv.gamedata.mods[k].path);
        crate::paths::lemma_basename_clean(iv.gamedata.mods[k].path);
        crate::asset::lemma_relative_path_split(AssetKind::Mod, bn);
        assert(me[k].0[0] == 'm');
        assert(fname[0] == 'i');
        if me[k].0 == fname {
            assert(me[k].0[0] == fname[0]);
        }
    }
    lemma_extract_files_all_kept(me);
    assert forall|k: int| 0 <= k < ie.len() implies keeps_entry(#[trigger] ie[k]) by {
        let bn = basename_of(iv.gamedata.iwads[k].path);
        crate::paths::lemma_basename_clean(iv.gamedata.iwads[k].path);
        crate::asset::lemma_relative_path_split(AssetKind::Iwad, bn);
        assert(ie[k].0[1] == 'w');
        assert(fname[1] == 'n');
        if ie[k].0 == fname {
            assert(ie[k].0[1] == fname[1]);
        }
    }
    lemma_extract_files_all_kept(ie);
    assert(Seq::new(me.len(), |k: int| extract_of(me[k])) =~= Seq::new(
        mod_datas.len(),
        |k: int| ExtractV {
            rel_dir: "mods"@,
            name: basename_of(iv.gamedata.mods[k].path),
            data: mod_datas[k],
        },
    )) by {
        assert forall|k: int| 0 <= k < me.len() implies extract_of(me[k]) == (ExtractV {
            rel_dir: "mods"@,
            name: basename_of(iv.gamedata.mods[k].path),
            data: mod_datas[k],
        }) by {
            let bn = basename_of(iv.gamedata.mods[k].path);
            crate::paths::lemma_basename_clean(iv.gamedata.mods[k].path);
            crate::asset::lemma_relative_path_split(AssetKind::Mod, bn);
            assert(extract_of(me[k]) =~= (ExtractV {
                rel_dir: "mods"@,
                name: bn,
                data: mod_datas[k],
            }));
        }
    }
    assert(Seq::new(ie.len(), |k: int| extract_of(ie[k])) =~= Seq::new(
        iwad_datas.len(),
        |k: int| ExtractV {
            rel_dir: "iwads"@,
            name: basename_of(iv.gamedata.iwads[k].path),
            data: iwad_datas[k],
        },
    )) by {
        assert forall|k: int| 0 <= k < ie.len() implies extract_of(ie[k]) == (ExtractV {
            rel_dir: "iwads"@,
            name: basename_of(iv.gamedata.iwads[k].path),
            data: iwad_datas[k],
        }) by {
            let bn = basename_of(iv.gamedata.iwads[k].path);
            crate::paths::lemma_basename_clean(iv.gamedata.iwads[k].path);
            crate::asset::lemma_relative_path_split(AssetKind::Iwad, bn);
            assert(extract_of(ie[k]) =~= (ExtractV {
                rel_dir: "iwads"@,
                name: bn,
                data: iwad_datas[k],
            }));
        }
    }
    // The save block extracts to exactly its files.
    if transfer_saves {
        let se = save_entries(sd, saves);
        lemma_extract_files_append(
            seq![(sd + seq!['/'], true, Seq::<u8>::empty())],
            se,
        );
        assert(extract_files(seq![(sd + seq!['/'], true, Seq::<u8>::empty())])
            =~= Seq::<ExtractV>::empty()) by {
            lemma_extract_files_single((sd + seq!['/'], true, Seq::<u8>::empty()));
            assert(!keeps_entry((sd + seq!['/'], true, Seq::<u8>::empty())));
        }
        assert forall|k: int| 0 <= k < se.len() implies keeps_entry(#[trigger] se[k]) by {
            let nm = saves[k].name;
            assert(!bad_save_name(nm));
            assert(se[k].0 == joined(sd, nm));
            crate::paths::lemma_basename_of_joined(sd, nm);
            assert(se[k].0[0] == sd[0]);
            assert(sd[0] == 's');
            assert(fname[0] == 'i');
            if se[k].0 == fname {
                assert(se[k].0[0] == fname[0]);
            }
        }
        lemma_extract_files_all_kept(se);
        assert(extract_files(save_block) =~= Seq::new(
            saves.len(),
            |k: int| extract_of(save_entries(sd, saves)[k]),
        ));
    } else {
        assert(extract_files(save_block) =~= Seq::<ExtractV>::empty());
    }
    assert(extract_files(es) =~= (if transfer_saves {
        Seq::new(saves.len(), |k: int| extract_of(save_entries(sd, saves)[k]))
    } else {
        Seq::<ExtractV>::empty()
    }) + Seq::new(
        mod_datas.len(),
        |k: int| ExtractV {
            rel_dir: "mods"@,
            name: basename_of(iv.gamedata.mods[k].path),
            data: mod_datas[k],
        },
    ) + Seq::new(
        iwad_datas.len(),
        |k: int| ExtractV {
            rel_dir: "iwads"@,
            name: basename_of(iv.gamedata.iwads[k].path),
            data: iwad_datas[k],
        },
    ));
}

} // verus!

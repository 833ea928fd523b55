use vstd::prelude::*;
use crate::search::{utf8, utf8_bytes};
use crate::text::{eq_folded, eq_folded_bytes};

verus! {

#[derive(Debug, Clone, Copy, PartialEq, Eq, Structural)]
pub enum DriveType {
    Fixed,
    Removable,
    Network,
    Optical,
    Unknown,
}

/// What the platform reports of one mounted logical drive. `type_code` is
/// the platform's drive-type code (2 removable, 3 fixed, 4 remote, 5 optical);
/// `volume_openable` is whether a raw volume handle could be opened without
/// an exclusive lock.
#[derive(Debug)]
pub struct DriveProbe {
    pub letter: String,
    pub path: String,
    pub filesystem: String,
    pub type_code: u32,
    pub has_medium: bool,
    pub volume_openable: bool,
}

/// A drive as listed to callers.
#[derive(Debug)]
pub struct DriveInfo {
    pub letter: String,
    pub path: String,
    pub filesystem: String,
    pub drive_type: DriveType,
    pub is_ntfs: bool,
    pub can_open_volume: bool,
}

pub open spec fn drive_type_of(code: u32) -> DriveType {
    if code == 2 {
        DriveType::Removable
    } else if code == 3 {
        DriveType::Fixed
    } else if code == 4 {
        DriveType::Network
    } else if code == 5 {
        DriveType::Optical
    } else {
        DriveType::Unknown
    }
}

/// The file system's name is `NTFS`, ignoring ASCII case.
pub open spec fn is_ntfs_name(fs: String) -> bool {
    eq_folded(utf8(fs), seq![78u8, 84u8, 70u8, 83u8])
}

/// A drive is listed when a medium is present.
pub open spec fn listed(p: DriveProbe) -> bool {
    p.has_medium
}

/// The raw volume can be used only on NTFS, where the fast strategy reads
/// the metadata catalog.
pub open spec fn info_of(p: DriveProbe) -> DriveInfo {
    DriveInfo {
        letter: p.letter,
        path: p.path,
        filesystem: p.filesystem,
        drive_type: drive_type_of(p.type_code),
        is_ntfs: is_ntfs_name(p.filesystem),
        can_open_volume: is_ntfs_name(p.filesystem) && p.volume_openable,
    }
}

pub open spec fn drives_of(probes: Seq<DriveProbe>) -> Seq<DriveInfo> {
    probes.filter(|p: DriveProbe| listed(p)).map_values(|p: DriveProbe| info_of(p))
}

pub fn drive_type(code: u32) -> (r: DriveType)
    ensures
        r == drive_type_of(code),
{
    if code == 2 {
        DriveType::Removable
    } else if code == 3 {
        DriveType::Fixed
    } else if code == 4 {
        DriveType::Network
    } else if code == 5 {
        DriveType::Optical
    } else {
        DriveType::Unknown
    }
}

pub fn describe_drive(p: &DriveProbe) -> (r: DriveInfo)
    ensures
        r == info_of(*p),
{
    let name = utf8_bytes(&p.filesystem);
    let ntfs: Vec<u8> = vec![78u8, 84u8, 70u8, 83u8];
    assert(ntfs@ =~= seq![78u8, 84u8, 70u8, 83u8]);
    let is_ntfs = eq_folded_bytes(&name, &ntfs);
    DriveInfo {
        letter: p.letter.clone(),
        path: p.path.clone(),
        filesystem: p.filesystem.clone(),
        drive_type: drive_type(p.type_code),
        is_ntfs,
        can_open_volume: is_ntfs && p.volume_openable,
    }
}

/// The listed drives, in the order probed.
pub fn list_drives(probes: &Vec<DriveProbe>) -> (r: Vec<DriveInfo>)
    ensures
        r@ == drives_of(probes@),
{
    let mut out: Vec<DriveInfo> = Vec::new();
    let mut i: usize = 0;
    while i < probes.len()
        invariant
            i <= probes@.len(),
            out@ == drives_of(probes@.take(i as int)),
        decreases probes@.len() - i,
    {
        proof {
            assert(probes@.take(i + 1).drop_last() =~= probes@.take(i as int));
            reveal(Seq::filter);
        }
        let p = &probes[i];
        if p.has_medium {
            out.push(describe_drive(p));
            proof {
                let f = probes@.take(i as int).filter(|p: DriveProbe| listed(p));
                assert(f.push(probes@[i as int]).map_values(|p: DriveProbe| info_of(p))
                    =~= f.map_values(|p: DriveProbe| info_of(p)).push(info_of(probes@[i as int])));
            }
        }
        i = i + 1;
    }
    assert(probes@.take(probes@.len() as int) =~= probes@);
    out
}

/// No mounted fixed drive (one with its medium present) is left out, and no
/// drive that is not NTFS offers its raw volume.
pub proof fn lemma_drive_listing(probes: Seq<DriveProbe>)
    ensures
        forall|i: int|
            0 <= i < probes.len() && drive_type_of(#[trigger] probes[i].type_code) == DriveType::Fixed
                && probes[i].has_medium ==> drives_of(probes).contains(info_of(probes[i])),
        forall|k: int|
            0 <= k < drives_of(probes).len() && !(#[trigger] drives_of(probes)[k]).is_ntfs
                ==> !drives_of(probes)[k].can_open_volume,
{
    let pred = |p: DriveProbe| listed(p);
    assert forall|i: int|
        0 <= i < probes.len() && drive_type_of(#[trigger] probes[i].type_code) == DriveType::Fixed
            && probes[i].has_medium implies drives_of(probes).contains(info_of(probes[i])) by {
        probes.lemma_filter_contains(pred, i);
        let f = probes.filter(pred);
        let k = choose|k: int| 0 <= k < f.len() && f[k] == probes[i];
        assert(drives_of(probes)[k] == info_of(probes[i]));
    }
    assert forall|k: int|
        0 <= k < drives_of(probes).len() && !(#[trigger] drives_of(probes)[k]).is_ntfs
            implies !drives_of(probes)[k].can_open_volume by {
        let f = probes.filter(pred);
        assert(drives_of(probes)[k] == info_of(f[k]));
    }
}

pub open spec fn letters_distinct(ds: Seq<DriveInfo>) -> bool {
    forall|i: int, j: int| 0 <= i < j < ds.len() ==> #[trigger] ds[i].letter@ != #[trigger] ds[j].letter@
}

pub open spec fn probe_letters_distinct(ps: Seq<DriveProbe>) -> bool {
    forall|i: int, j: int| 0 <= i < j < ps.len() ==> #[trigger] ps[i].letter@ != #[trigger] ps[j].letter@
}

/// Probes of distinct letters give a listing in which each letter, and so
/// each mounted fixed drive, appears once.
pub proof fn lemma_drive_letters_once(probes: Seq<DriveProbe>)
    requires
        probe_letters_distinct(probes),
    ensures
        letters_distinct(drives_of(probes)),
        forall|k: int|
            0 <= k < drives_of(probes).len() ==> exists|i: int|
                0 <= i < probes.len() && #[trigger] drives_of(probes)[k].letter@ == probes[i].letter@,
    decreases probes.len(),
{
    let pred = |p: DriveProbe| listed(p);
    if probes.len() > 0 {
        let rest = probes.drop_last();
        assert(probe_letters_distinct(rest)) by {
            assert forall|i: int, j: int| 0 <= i < j < rest.len() implies #[trigger] rest[i].letter@
                != #[trigger] rest[j].letter@ by {
                assert(probes[i] == rest[i] && probes[j] == rest[j]);
            }
        }
        lemma_drive_letters_once(rest);
        let dr = drives_of(rest);
        reveal(Seq::filter);
        assert forall|k: int| 0 <= k < dr.len() implies exists|i: int|
            0 <= i < probes.len() && #[trigger] dr[k].letter@ == probes[i].letter@ && i < probes.len() - 1 by {
            let i = choose|i: int| 0 <= i < rest.len() && #[trigger] dr[k].letter@ == rest[i].letter@;
            assert(probes[i] == rest[i]);
        }
        if listed(probes.last()) {
            let f = rest.filter(pred);
            assert(probes.filter(pred) == f.push(probes.last()));
            assert(drives_of(probes) =~= dr.push(info_of(probes.last())));
            let d = drives_of(probes);
            assert forall|k: int| 0 <= k < dr.len() implies #[trigger] dr[k].letter@ != probes.last().letter@ by {
                let i = choose|i: int| 0 <= i < probes.len() && #[trigger] dr[k].letter@ == probes[i].letter@ && i < probes.len() - 1;
                assert(probes[probes.len() - 1] == probes.last());
            }
            assert forall|k: int| 0 <= k < d.len() implies exists|i: int|
                0 <= i < probes.len() && #[trigger] d[k].letter@ == probes[i].letter@ by {
                if k == dr.len() {
                    assert(probes[probes.len() - 1] == probes.last());
                } else {
                    assert(d[k] == dr[k]);
                }
            }
            assert forall|i: int, j: int| 0 <= i < j < d.len() implies #[trigger] d[i].letter@ != #[trigger] d[j].letter@ by {
                assert(d[i] == dr[i]);
                if j < dr.len() {
                    assert(d[j] == dr[j]);
                }
            }
        } else {
            assert(probes.filter(pred) == rest.filter(pred));
        }
    }
}

} // verus!

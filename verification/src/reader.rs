//! The reader: locating a configuration file and turning its contents into
//! a fully resolved document.
//!
//! Paths are handled as raw bytes throughout; the caller (or the thin
//! front-end around this crate) performs the actual file I/O and hands the
//! buffer in.  Only the candidate-existence probe touches the filesystem,
//! through one trusted call.

use vstd::prelude::*;
use crate::text::after_last;
use crate::types::{SyslinuxConf, SyslinuxConfV, ReaderError, Warning};
use crate::parser::{spec_parse, spec_parse_warnings};
use crate::lines::lines_of;
use crate::resolve::{resolve_conf_spec, join1};

verus! {

/// The three dialects and their conventional file locations.
#[derive(Debug, Clone, Copy, PartialEq, Eq, Structural)]
pub enum LocalConfType {
    SysLinux,
    IsoLinux,
    ExtLinux,
}

pub open spec fn boot_dir() -> Seq<u8> {
    seq![98u8, 111u8, 111u8, 116u8]
}

/// The dialect's directory name: `syslinux`, `isolinux` or `extlinux`.
pub open spec fn conf_dir_name(t: LocalConfType) -> Seq<u8> {
    match t {
        LocalConfType::SysLinux => seq![115u8, 121u8, 115u8, 108u8, 105u8, 110u8, 117u8, 120u8],
        LocalConfType::IsoLinux => seq![105u8, 115u8, 111u8, 108u8, 105u8, 110u8, 117u8, 120u8],
        LocalConfType::ExtLinux => seq![101u8, 120u8, 116u8, 108u8, 105u8, 110u8, 117u8, 120u8],
    }
}

/// The dialect's file name: `syslinux.cfg`, `isolinux.cfg` or
/// `extlinux.conf`.
pub open spec fn conf_file_name(t: LocalConfType) -> Seq<u8> {
    match t {
        LocalConfType::SysLinux => seq![
            115u8, 121u8, 115u8, 108u8, 105u8, 110u8, 117u8, 120u8, 46u8, 99u8, 102u8, 103u8,
        ],
        LocalConfType::IsoLinux => seq![
            105u8, 115u8, 111u8, 108u8, 105u8, 110u8, 117u8, 120u8, 46u8, 99u8, 102u8, 103u8,
        ],
        LocalConfType::ExtLinux => seq![
            101u8, 120u8, 116u8, 108u8, 105u8, 110u8, 117u8, 120u8, 46u8, 99u8, 111u8, 110u8,
            102u8,
        ],
    }
}

/// The candidate locations of a dialect's configuration file under a root:
/// `root/boot/<dir>/<file>`, `root/<dir>/<file>`, `root/<file>`.
pub open spec fn get_paths_spec(t: LocalConfType, root: Seq<u8>) -> Seq<Seq<u8>> {
    seq![
        join1(join1(join1(root, boot_dir()), conf_dir_name(t)), conf_file_name(t)),
        join1(join1(root, conf_dir_name(t)), conf_file_name(t)),
        join1(root, conf_file_name(t)),
    ]
}

/// Candidate locations over all three dialects, in declaration order.
pub open spec fn get_all_paths_spec(root: Seq<u8>) -> Seq<Seq<u8>> {
    get_paths_spec(LocalConfType::SysLinux, root) + get_paths_spec(LocalConfType::IsoLinux, root)
        + get_paths_spec(LocalConfType::ExtLinux, root)
}

fn copy_bytes(v: &Vec<u8>) -> (r: Vec<u8>)
    ensures
        r@ == v@,
{
    vstd::slice::slice_to_vec(v.as_slice())
}

fn dir_name_bytes(t: LocalConfType) -> (r: Vec<u8>)
    ensures
        r@ == conf_dir_name(t),
{
    let mut v: Vec<u8> = Vec::new();
    match t {
        LocalConfType::SysLinux => {
            let a = [115u8, 121u8, 115u8, 108u8, 105u8, 110u8, 117u8, 120u8];
            v.extend_from_slice(a.as_slice());
            proof {
                assert(v@ =~= conf_dir_name(t));
            }
        },
        LocalConfType::IsoLinux => {
            let a = [105u8, 115u8, 111u8, 108u8, 105u8, 110u8, 117u8, 120u8];
            v.extend_from_slice(a.as_slice());
            proof {
                assert(v@ =~= conf_dir_name(t));
            }
        },
        LocalConfType::ExtLinux => {
            let a = [101u8, 120u8, 116u8, 108u8, 105u8, 110u8, 117u8, 120u8];
            v.extend_from_slice(a.as_slice());
            proof {
                assert(v@ =~= conf_dir_name(t));
            }
        },
    }
    v
}

fn file_name_bytes(t: LocalConfType) -> (r: Vec<u8>)
    ensures
        r@ == conf_file_name(t),
{
    let mut v: Vec<u8> = Vec::new();
    match t {
        LocalConfType::SysLinux => {
            let a = [115u8, 121u8, 115u8, 108u8, 105u8, 110u8, 117u8, 120u8, 46u8, 99u8, 102u8,
                103u8];
            v.extend_from_slice(a.as_slice());
            proof {
                assert(v@ =~= conf_file_name(t));
            }
        },
        LocalConfType::IsoLinux => {
            let a = [105u8, 115u8, 111u8, 108u8, 105u8, 110u8, 117u8, 120u8, 46u8, 99u8, 102u8,
                103u8];
            v.extend_from_slice(a.as_slice());
            proof {
                assert(v@ =~= conf_file_name(t));
            }
        },
        LocalConfType::ExtLinux => {
            let a = [101u8, 120u8, 116u8, 108u8, 105u8, 110u8, 117u8, 120u8, 46u8, 99u8, 111u8,
                110u8, 102u8];
            v.extend_from_slice(a.as_slice());
            proof {
                assert(v@ =~= conf_file_name(t));
            }
        },
    }
    v
}

impl LocalConfType {
    /// The candidate configuration file paths of this dialect under `root`.
    pub fn get_paths(self, root: Vec<u8>) -> (r: Vec<Vec<u8>>)
        ensures
            r@.map_values(|p: Vec<u8>| p@) == get_paths_spec(self, root@),
    {
        let dir = dir_name_bytes(self);
        let file = file_name_bytes(self);
        let boot = [98u8, 111u8, 111u8, 116u8];
        proof {
            assert(boot@ =~= boot_dir());
        }
        let mut p1 = copy_bytes(&root);
        crate::resolve::push_component(&mut p1, boot.as_slice());
        crate::resolve::push_component(&mut p1, dir.as_slice());
        crate::resolve::push_component(&mut p1, file.as_slice());
        let mut p2 = copy_bytes(&root);
        crate::resolve::push_component(&mut p2, dir.as_slice());
        crate::resolve::push_component(&mut p2, file.as_slice());
        let mut p3 = root;
        crate::resolve::push_component(&mut p3, file.as_slice());
        let mut r: Vec<Vec<u8>> = Vec::new();
        r.push(p1);
        r.push(p2);
        r.push(p3);
        proof {
            assert(r@.map_values(|p: Vec<u8>| p@) =~= get_paths_spec(self, root@));
        }
        r
    }

    /// The candidate paths of all three dialects under `root`.
    pub fn get_all_paths(root: Vec<u8>) -> (r: Vec<Vec<u8>>)
        ensures
            r@.map_values(|p: Vec<u8>| p@) == get_all_paths_spec(root@),
    {
        let mut r = LocalConfType::SysLinux.get_paths(copy_bytes(&root));
        let mut r2 = LocalConfType::IsoLinux.get_paths(copy_bytes(&root));
        let mut r3 = LocalConfType::ExtLinux.get_paths(root);
        r.append(&mut r2);
        r.append(&mut r3);
        proof {
            assert(r@.map_values(|p: Vec<u8>| p@) =~= get_all_paths_spec(root@));
        }
        r
    }
}

/// The sequence without its trailing `/` separators.
pub open spec fn strip_trailing_seps(p: Seq<u8>) -> Seq<u8>
    decreases p.len(),
{
    if p.len() > 0 && p.last() == 47 {
        strip_trailing_seps(p.drop_last())
    } else {
        p
    }
}

pub proof fn lemma_strip_trailing_seps_range(p: Seq<u8>, i: int)
    requires
        0 <= i <= p.len(),
        forall|j: int| i <= j < p.len() ==> p[j] == 47,
        i > 0 ==> p[i - 1] != 47,
    ensures
        strip_trailing_seps(p) == p.take(i),
    decreases p.len() - i,
{
    if i == p.len() {
        assert(p.take(i) =~= p);
    } else {
        lemma_strip_trailing_seps_range(p.drop_last(), i);
        assert(p.drop_last().take(i) =~= p.take(i));
    }
}

/// The parent directory of a path: everything before its final component,
/// ignoring trailing separators.  `None` for an empty path and for the
/// bare root; a separator-free path has the empty parent.
pub open spec fn parent_of(p: Seq<u8>) -> Option<Seq<u8>> {
    let q = strip_trailing_seps(p);
    if q.len() == 0 {
        // Empty, or nothing but separators (the root).
        None
    } else {
        let suffix = after_last(q, 47);
        if suffix.len() == q.len() {
            // No separator: the parent is the empty directory.
            Some(Seq::empty())
        } else {
            let r = strip_trailing_seps(q.take(q.len() - suffix.len() - 1));
            if r.len() == 0 {
                Some(seq![47u8])
            } else {
                Some(r)
            }
        }
    }
}

/// Relies on `std::path::Path::exists`: whether the path points at an
/// existing filesystem entity.  The answer depends on the state of the
/// disk, so nothing is stated about it; a path that is not valid UTF-8 is
/// reported as absent.
#[verifier::external_body]
fn path_exists(p: &[u8]) -> bool {
    match core::str::from_utf8(p) {
        Ok(s) => std::path::Path::new(s).exists(),
        Err(_) => false,
    }
}

/// A configured reader: where the boot device is mounted, where the
/// configuration file lies, and the directory holding it.
#[derive(Debug, Clone, PartialEq, Eq)]
pub struct Reader {
    pub root_dir: Vec<u8>,
    pub conf_dir: Vec<u8>,
    pub conf_file_path: Vec<u8>,
}

/// What reading a buffer under a reader's directories yields: the parse of
/// the bytes, with every path resolved on success.
pub open spec fn spec_read(bytes: Seq<u8>, root: Seq<u8>, conf: Seq<u8>) -> Result<
    SyslinuxConfV,
    ReaderError,
> {
    match spec_parse(bytes) {
        Ok(c) => Ok(resolve_conf_spec(c, root, conf)),
        Err(e) => Err(e),
    }
}

impl Reader {
    /// Picks the first candidate path that exists on disk.  Which one that
    /// is depends on the filesystem; what is guaranteed is that the result
    /// is one of the candidates, and that an empty candidate list fails.
    fn find_existing_local_conf(paths: Vec<Vec<u8>>) -> (r: Result<Vec<u8>, ReaderError>)
        ensures
            match r {
                Ok(p) => exists|i: int| 0 <= i < paths@.len() && paths@[i]@ == p@,
                Err(e) => e == ReaderError::NotFoundError,
            },
    {
        let n = paths.len();
        let mut i: usize = 0;
        while i < n
            invariant
                0 <= i <= n == paths@.len(),
            decreases n - i,
        {
            if path_exists(paths[i].as_slice()) {
                let p = copy_bytes(&paths[i]);
                proof {
                    assert(0 <= i < paths@.len() && paths@[i as int]@ == p@);
                }
                return Ok(p);
            }
            i = i + 1;
        }
        Err(ReaderError::NotFoundError)
    }

    /// Builds a reader for a known configuration file path: the file's
    /// directory becomes the resolution base for relative paths.  A path
    /// without a parent directory is rejected.
    pub fn from_local_conf_file_path(root: Vec<u8>, conf_file_path: Vec<u8>) -> (r: Result<
        Reader,
        ReaderError,
    >)
        ensures
            match parent_of(conf_file_path@) {
                Some(d) => r matches Ok(rd) && rd.root_dir@ == root@ && rd.conf_dir@ == d
                    && rd.conf_file_path@ == conf_file_path@,
                None => r matches Err(e) && e == ReaderError::IOError,
            },
    {
        let len = conf_file_path.len();
        let mut end = len;
        while end > 0 && conf_file_path[end - 1] == 47
            invariant
                0 <= end <= len == conf_file_path@.len(),
                forall|j: int| end <= j < len ==> conf_file_path@[j] == 47,
            decreases end,
        {
            end = end - 1;
        }
        let ghost q = conf_file_path@.take(end as int);
        proof {
            lemma_strip_trailing_seps_range(conf_file_path@, end as int);
        }
        if end == 0 {
            // Empty, or nothing but separators: no parent.
            return Err(ReaderError::IOError);
        }
        let cut = crate::text::find_after_last(conf_file_path.as_slice(), 0, end, 47);
        proof {
            assert(conf_file_path@.subrange(0, end as int) =~= q);
        }
        if cut == 0 {
            // No separator: the parent is the empty directory.
            let conf_dir: Vec<u8> = Vec::new();
            proof {
                assert(conf_dir@ =~= Seq::<u8>::empty());
            }
            return Ok(Reader { root_dir: root, conf_dir, conf_file_path });
        }
        // conf_file_path[cut - 1] == '/': cut off there and drop any further
        // trailing separators.
        let mut e2 = cut - 1;
        while e2 > 0 && conf_file_path[e2 - 1] == 47
            invariant
                0 <= e2 <= cut - 1 < len == conf_file_path@.len(),
                forall|j: int| e2 <= j < cut - 1 ==> conf_file_path@[j] == 47,
            decreases e2,
        {
            e2 = e2 - 1;
        }
        proof {
            let pre = q.take(cut - 1);
            assert(pre =~= conf_file_path@.take(cut - 1));
            lemma_strip_trailing_seps_range(pre, e2 as int);
            assert(pre.take(e2 as int) =~= conf_file_path@.take(e2 as int));
        }
        if e2 == 0 {
            let mut conf_dir: Vec<u8> = Vec::new();
            conf_dir.push(47);
            proof {
                assert(conf_dir@ =~= seq![47u8]);
            }
            return Ok(Reader { root_dir: root, conf_dir, conf_file_path });
        }
        let conf_dir = vstd::slice::slice_to_vec(
            vstd::slice::slice_subrange(conf_file_path.as_slice(), 0, e2),
        );
        proof {
            assert(conf_dir@ =~= conf_file_path@.take(e2 as int));
        }
        Ok(Reader { root_dir: root, conf_dir, conf_file_path })
    }

    fn from_existing_local_conf(root: Vec<u8>, paths: Vec<Vec<u8>>) -> (r: Result<
        Reader,
        ReaderError,
    >)
        ensures
            match r {
                Ok(rd) => {
                    &&& rd.root_dir@ == root@
                    &&& exists|i: int|
                        0 <= i < paths@.len() && paths@[i]@ == rd.conf_file_path@
                    &&& parent_of(rd.conf_file_path@) == Some(rd.conf_dir@)
                },
                Err(e) => e == ReaderError::NotFoundError || e == ReaderError::IOError,
            },
    {
        match Reader::find_existing_local_conf(paths) {
            Ok(p) => Reader::from_local_conf_file_path(root, p),
            Err(e) => Err(e),
        }
    }

    /// Builds a reader by probing the dialect's conventional locations
    /// under `root` and taking the first that exists.
    pub fn from_local_type(root: Vec<u8>, local_type: LocalConfType) -> (r: Result<
        Reader,
        ReaderError,
    >)
        ensures
            match r {
                Ok(rd) => {
                    &&& rd.root_dir@ == root@
                    &&& exists|i: int|
                        0 <= i < get_paths_spec(local_type, root@).len() && get_paths_spec(
                            local_type,
                            root@,
                        )[i] == rd.conf_file_path@
                    &&& parent_of(rd.conf_file_path@) == Some(rd.conf_dir@)
                },
                Err(e) => e == ReaderError::NotFoundError || e == ReaderError::IOError,
            },
    {
        let paths = local_type.get_paths(copy_bytes(&root));
        let r = Reader::from_existing_local_conf(root, paths);
        proof {
            let pv = paths@.map_values(|p: Vec<u8>| p@);
            match &r {
                Ok(rd) => {
                    let i = choose|i: int|
                        0 <= i < paths@.len() && paths@[i]@ == rd.conf_file_path@;
                    assert(pv[i] == paths@[i]@);
                    assert(get_paths_spec(local_type, root@)[i] == rd.conf_file_path@);
                },
                Err(_) => {},
            }
        }
        r
    }

    /// Builds a reader by probing every dialect's conventional locations
    /// under `root` and taking the first that exists.
    pub fn from_local(root: Vec<u8>) -> (r: Result<Reader, ReaderError>)
        ensures
            match r {
                Ok(rd) => {
                    &&& rd.root_dir@ == root@
                    &&& exists|i: int|
                        0 <= i < get_all_paths_spec(root@).len() && get_all_paths_spec(root@)[i]
                            == rd.conf_file_path@
                    &&& parent_of(rd.conf_file_path@) == Some(rd.conf_dir@)
                },
                Err(e) => e == ReaderError::NotFoundError || e == ReaderError::IOError,
            },
    {
        let paths = LocalConfType::get_all_paths(copy_bytes(&root));
        let r = Reader::from_existing_local_conf(root, paths);
        proof {
            let pv = paths@.map_values(|p: Vec<u8>| p@);
            match &r {
                Ok(rd) => {
                    let i = choose|i: int|
                        0 <= i < paths@.len() && paths@[i]@ == rd.conf_file_path@;
                    assert(pv[i] == paths@[i]@);
                    assert(get_all_paths_spec(root@)[i] == rd.conf_file_path@);
                },
                Err(_) => {},
            }
        }
        r
    }

    /// Parses the configuration file's contents and resolves every path in
    /// the document against this reader's directories.  Either the fully
    /// resolved document comes back, or the parse's error; no partial
    /// document is ever returned.  Alongside it come the diagnostics of
    /// everything the parse recovered from locally: unknown tags and
    /// discarded duplicate labels.
    pub fn read_with_warnings(&self, conf_contents: &[u8]) -> (r: (
        Result<SyslinuxConf, ReaderError>,
        Vec<Warning>,
    ))
        ensures
            r.0 matches Ok(c) ==> spec_read(conf_contents@, self.root_dir@, self.conf_dir@)
                == Ok::<SyslinuxConfV, ReaderError>(c@) && c.labels.wf(),
            r.0 matches Err(e) ==> spec_read(conf_contents@, self.root_dir@, self.conf_dir@)
                == Err::<SyslinuxConfV, ReaderError>(e),
            r.1@ == spec_parse_warnings(lines_of(conf_contents@)),
    {
        let (parsed, warnings) = SyslinuxConf::parse_with_warnings(conf_contents);
        match parsed {
            Ok(c) => (Ok(c.resolve(&self.root_dir, &self.conf_dir)), warnings),
            Err(e) => (Err(e), warnings),
        }
    }

    /// As [`Reader::read_with_warnings`], with the diagnostics discarded.
    pub fn read(&self, conf_contents: &[u8]) -> (r: Result<SyslinuxConf, ReaderError>)
        ensures
            r matches Ok(c) ==> spec_read(conf_contents@, self.root_dir@, self.conf_dir@) == Ok::<
                SyslinuxConfV,
                ReaderError,
            >(c@) && c.labels.wf(),
            r matches Err(e) ==> spec_read(conf_contents@, self.root_dir@, self.conf_dir@) == Err::<
                SyslinuxConfV,
                ReaderError,
            >(e),
    {
        match SyslinuxConf::parse(conf_contents) {
            Ok(c) => Ok(c.resolve(&self.root_dir, &self.conf_dir)),
            Err(e) => Err(e),
        }
    }
}

} // verus!

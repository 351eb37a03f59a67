//! Path sanitization and resolution.
//!
//! Every path written in a configuration file is rewritten into a
//! filesystem-ready form: its current-directory and parent-directory
//! components are dropped outright (a conservative containment choice,
//! not a normalization), and the remainder is joined either onto the
//! device root directory (for paths authored as absolute) or onto the
//! directory holding the configuration file (for relative paths).

use vstd::prelude::*;
use crate::types::{KernelFile, KernelFileV, Kernel, KernelV, KernelOrConfig, KernelOrConfigV,
    Label, LabelV, Global, GlobalV, Labels, SyslinuxConf, SyslinuxConfV, labels_unique};

verus! {

/// Index of the first `/` in `s`, or `s.len()` when none occurs.
pub open spec fn first_sep(s: Seq<u8>) -> int
    decreases s.len(),
{
    if s.len() == 0 {
        0
    } else if s[0] == 47 {
        0
    } else {
        1 + first_sep(s.skip(1))
    }
}

pub proof fn lemma_first_sep_range(s: Seq<u8>, i: int)
    requires
        0 <= i <= s.len(),
        forall|j: int| 0 <= j < i ==> s[j] != 47,
        i < s.len() ==> s[i] == 47,
    ensures
        first_sep(s) == i,
    decreases i,
{
    if i > 0 {
        lemma_first_sep_range(s.skip(1), i - 1);
    }
}

/// The non-empty components of a `/`-separated path, in order; separators
/// and empty components contribute nothing.
pub open spec fn components_of(s: Seq<u8>) -> Seq<Seq<u8>>
    decreases s.len(),
{
    if s.len() == 0 {
        Seq::empty()
    } else {
        let e = first_sep(s);
        if e < 0 || e >= s.len() {
            seq![s]
        } else if e == 0 {
            components_of(s.skip(1))
        } else {
            seq![s.take(e)] + components_of(s.skip(e + 1))
        }
    }
}

/// Keeps a component unless it is `.` or `..`.
pub open spec fn keep_component(c: Seq<u8>) -> bool {
    c != seq![46u8] && c != seq![46u8, 46u8]
}

/// Drops every `.` and `..` component.
pub open spec fn sanitize(cs: Seq<Seq<u8>>) -> Seq<Seq<u8>>
    decreases cs.len(),
{
    if cs.len() == 0 {
        Seq::empty()
    } else {
        let rest = sanitize(cs.skip(1));
        if keep_component(cs[0]) {
            seq![cs[0]] + rest
        } else {
            rest
        }
    }
}

/// The retained components of a raw path.
pub open spec fn sanitized_components(p: Seq<u8>) -> Seq<Seq<u8>> {
    sanitize(components_of(p))
}

/// A path authored as absolute (relative to the boot device root).
pub open spec fn is_rooted(p: Seq<u8>) -> bool {
    p.len() > 0 && p[0] == 47
}

/// Joining one component onto a directory: a `/` goes between them unless
/// the directory is empty or already ends with one.
pub open spec fn join1(dir: Seq<u8>, c: Seq<u8>) -> Seq<u8> {
    if dir.len() == 0 {
        c
    } else if dir.last() == 47 {
        dir + c
    } else {
        dir + seq![47u8] + c
    }
}

/// Joining a component sequence onto a directory, left to right.
pub open spec fn join_all(dir: Seq<u8>, cs: Seq<Seq<u8>>) -> Seq<u8>
    decreases cs.len(),
{
    if cs.len() == 0 {
        dir
    } else {
        join_all(join1(dir, cs[0]), cs.skip(1))
    }
}

/// The resolved form of a raw path: sanitized, then joined onto the device
/// root (absolute paths) or the configuration file's directory (relative
/// paths).
pub open spec fn resolve_path_spec(p: Seq<u8>, root: Seq<u8>, conf: Seq<u8>) -> Seq<u8> {
    if is_rooted(p) {
        join_all(root, sanitized_components(p))
    } else {
        join_all(conf, sanitized_components(p))
    }
}

/// Appends `/` (when needed) and the component bytes.
pub fn push_component(out: &mut Vec<u8>, c: &[u8])
    ensures
        final(out)@ == join1(old(out)@, c@),
{
    if out.len() > 0 {
        let last = out[out.len() - 1];
        if last != 47 {
            out.push(47);
        }
    }
    let ghost base = out@;
    out.extend_from_slice(c);
    proof {
        assert(out@ =~= base + c@);
        if old(out)@.len() > 0 && old(out)@.last() != 47 {
            assert(out@ =~= old(out)@ + seq![47u8] + c@);
        }
    }
}

/// Sanitizes and resolves one raw path against the two directories.
pub fn resolve_one_path(path: Vec<u8>, root_dir: &Vec<u8>, conf_dir: &Vec<u8>) -> (r: Vec<u8>)
    ensures
        r@ == resolve_path_spec(path@, root_dir@, conf_dir@),
{
    let len = path.len();
    let rooted = len > 0 && path[0] == 47;
    let mut out: Vec<u8> = Vec::new();
    if rooted {
        out.extend_from_slice(root_dir.as_slice());
        proof {
            assert(out@ =~= root_dir@);
        }
    } else {
        out.extend_from_slice(conf_dir.as_slice());
        proof {
            assert(out@ =~= conf_dir@);
        }
    }
    let mut i: usize = 0;
    proof {
        assert(path@.skip(0) =~= path@);
    }
    while i < len
        invariant
            0 <= i <= len == path@.len(),
            join_all(out@, sanitize(components_of(path@.skip(i as int)))) == resolve_path_spec(
                path@,
                root_dir@,
                conf_dir@,
            ),
        decreases len - i,
    {
        let ghost s = path@.skip(i as int);
        if path[i] == 47 {
            proof {
                lemma_first_sep_range(s, 0);
                assert(s.skip(1) =~= path@.skip(i + 1));
            }
            i = i + 1;
        } else {
            let mut ce = i + 1;
            while ce < len && path[ce] != 47
                invariant
                    i < ce <= len == path@.len(),
                    forall|j: int| i <= j < ce ==> path@[j] != 47,
                decreases len - ce,
            {
                ce = ce + 1;
            }
            proof {
                assert(forall|j: int| 0 <= j < ce - i ==> s[j] == path@[i + j]);
                lemma_first_sep_range(s, ce - i);
                assert(s.take(ce - i) =~= path@.subrange(i as int, ce as int));
                if ce < len {
                    assert(s.skip(ce - i + 1) =~= path@.skip(ce + 1));
                }
            }
            let comp = vstd::slice::slice_subrange(path.as_slice(), i, ce);
            let is_dot = comp.len() == 1 && comp[0] == 46;
            let is_dotdot = comp.len() == 2 && comp[0] == 46 && comp[1] == 46;
            proof {
                if is_dot {
                    assert(comp@ =~= seq![46u8]);
                }
                if is_dotdot {
                    assert(comp@ =~= seq![46u8, 46u8]);
                }
                if !is_dot && !is_dotdot {
                    assert(comp@ != seq![46u8] && comp@ != seq![46u8, 46u8]) by {
                        if comp@ == seq![46u8] {
                            assert(comp@.len() == 1 && comp@[0] == 46);
                        }
                        if comp@ == seq![46u8, 46u8] {
                            assert(comp@.len() == 2 && comp@[0] == 46 && comp@[1] == 46);
                        }
                    }
                }
            }
            let ghost out_before = out@;
            if !is_dot && !is_dotdot {
                push_component(&mut out, comp);
            }
            proof {
                let cs = components_of(s);
                let rest = if ce == len {
                    Seq::<Seq<u8>>::empty()
                } else {
                    components_of(s.skip(ce - i + 1))
                };
                if ce == len {
                    assert(s.take(ce - i) =~= s);
                    assert(cs =~= seq![s]);
                    assert(cs.skip(1) =~= rest);
                } else {
                    assert(cs == seq![s.take(ce - i)] + components_of(s.skip(ce - i + 1)));
                    assert(cs.skip(1) =~= rest);
                }
                assert(cs[0] == comp@);
                assert(sanitize(cs) == if keep_component(comp@) {
                    seq![comp@] + sanitize(rest)
                } else {
                    sanitize(rest)
                });
                if keep_component(comp@) {
                    let san = seq![comp@] + sanitize(rest);
                    assert(san[0] == comp@);
                    assert(san.skip(1) =~= sanitize(rest));
                    assert(join_all(out_before, san) == join_all(
                        join1(out_before, comp@),
                        sanitize(rest),
                    ));
                    assert(out@ == join1(out_before, comp@));
                } else {
                    assert(out@ == out_before);
                }
                if ce == len {
                    assert(components_of(path@.skip(len as int)) =~= Seq::<Seq<u8>>::empty());
                    assert(join_all(out@, sanitize(rest)) == out@);
                }
            }
            if ce == len {
                i = len;
            } else {
                i = ce + 1;
            }
        }
    }
    proof {
        assert(path@.skip(len as int) =~= Seq::<u8>::empty());
    }
    out
}

// ----------------------------------------------------------------------
// Resolution over the document
// ----------------------------------------------------------------------
pub open spec fn resolve_kernel_file_spec(k: KernelFileV, root: Seq<u8>, conf: Seq<u8>) -> KernelFileV {
    match k {
        KernelFileV::Linux(p) => KernelFileV::Linux(resolve_path_spec(p, root, conf)),
        KernelFileV::Boot(p) => KernelFileV::Boot(resolve_path_spec(p, root, conf)),
        KernelFileV::BSS(p) => KernelFileV::BSS(resolve_path_spec(p, root, conf)),
        KernelFileV::PXE(p) => KernelFileV::PXE(resolve_path_spec(p, root, conf)),
        KernelFileV::FDImage(p) => KernelFileV::FDImage(resolve_path_spec(p, root, conf)),
        KernelFileV::ComBoot(p) => KernelFileV::ComBoot(resolve_path_spec(p, root, conf)),
        KernelFileV::Com32(p) => KernelFileV::Com32(resolve_path_spec(p, root, conf)),
    }
}

pub open spec fn resolve_opt_path_spec(o: Option<Seq<u8>>, root: Seq<u8>, conf: Seq<u8>) -> Option<
    Seq<u8>,
> {
    match o {
        Some(p) => Some(resolve_path_spec(p, root, conf)),
        None => None,
    }
}

pub open spec fn resolve_kernel_spec(k: KernelV, root: Seq<u8>, conf: Seq<u8>) -> KernelV {
    KernelV {
        kernel_file: match k.kernel_file {
            Some(f) => Some(resolve_kernel_file_spec(f, root, conf)),
            None => None,
        },
        initrd: resolve_opt_path_spec(k.initrd, root, conf),
        fdt_dir: resolve_opt_path_spec(k.fdt_dir, root, conf),
        append: k.append,
    }
}

pub open spec fn resolve_label_spec(l: LabelV, root: Seq<u8>, conf: Seq<u8>) -> LabelV {
    LabelV {
        kernel_or_config: match l.kernel_or_config {
            KernelOrConfigV::Kernel(k) => KernelOrConfigV::Kernel(resolve_kernel_spec(k, root, conf)),
        },
        display: resolve_opt_path_spec(l.display, root, conf),
        text_help: l.text_help,
        say: l.say,
    }
}

pub open spec fn resolve_global_spec(g: GlobalV, root: Seq<u8>, conf: Seq<u8>) -> GlobalV {
    GlobalV { label_defaults: resolve_label_spec(g.label_defaults, root, conf), ..g }
}

pub open spec fn resolve_conf_spec(c: SyslinuxConfV, root: Seq<u8>, conf: Seq<u8>) -> SyslinuxConfV {
    SyslinuxConfV {
        global: resolve_global_spec(c.global, root, conf),
        labels: c.labels.map_values(
            |e: (Seq<char>, LabelV)| (e.0, resolve_label_spec(e.1, root, conf)),
        ),
    }
}

impl KernelFile {
    /// Resolves the carried path, keeping the variant.
    pub fn resolve(self, root_dir: &Vec<u8>, conf_dir: &Vec<u8>) -> (r: KernelFile)
        ensures
            r@ == resolve_kernel_file_spec(self@, root_dir@, conf_dir@),
    {
        match self {
            KernelFile::Linux(p) => KernelFile::Linux(resolve_one_path(p, root_dir, conf_dir)),
            KernelFile::Boot(p) => KernelFile::Boot(resolve_one_path(p, root_dir, conf_dir)),
            KernelFile::BSS(p) => KernelFile::BSS(resolve_one_path(p, root_dir, conf_dir)),
            KernelFile::PXE(p) => KernelFile::PXE(resolve_one_path(p, root_dir, conf_dir)),
            KernelFile::FDImage(p) => KernelFile::FDImage(resolve_one_path(p, root_dir, conf_dir)),
            KernelFile::ComBoot(p) => KernelFile::ComBoot(resolve_one_path(p, root_dir, conf_dir)),
            KernelFile::Com32(p) => KernelFile::Com32(resolve_one_path(p, root_dir, conf_dir)),
        }
    }
}

fn resolve_opt_path(o: Option<Vec<u8>>, root_dir: &Vec<u8>, conf_dir: &Vec<u8>) -> (r: Option<
    Vec<u8>,
>)
    ensures
        crate::types::view_opt_bytes(r) == resolve_opt_path_spec(
            crate::types::view_opt_bytes(o),
            root_dir@,
            conf_dir@,
        ),
{
    match o {
        Some(p) => Some(resolve_one_path(p, root_dir, conf_dir)),
        None => None,
    }
}

impl Kernel {
    /// Resolves the kernel image, initrd and device-tree paths.
    pub fn resolve(self, root_dir: &Vec<u8>, conf_dir: &Vec<u8>) -> (r: Kernel)
        ensures
            r@ == resolve_kernel_spec(self@, root_dir@, conf_dir@),
    {
        let mut k = self;
        k.kernel_file = match k.kernel_file {
            Some(f) => Some(f.resolve(root_dir, conf_dir)),
            None => None,
        };
        k.initrd = resolve_opt_path(k.initrd, root_dir, conf_dir);
        k.fdt_dir = resolve_opt_path(k.fdt_dir, root_dir, conf_dir);
        k
    }
}

impl KernelOrConfig {
    pub fn resolve(self, root_dir: &Vec<u8>, conf_dir: &Vec<u8>) -> (r: KernelOrConfig)
        ensures
            self@ matches KernelOrConfigV::Kernel(k) ==> r@ == KernelOrConfigV::Kernel(
                resolve_kernel_spec(k, root_dir@, conf_dir@),
            ),
    {
        match self {
            KernelOrConfig::Kernel(k) => KernelOrConfig::Kernel(k.resolve(root_dir, conf_dir)),
        }
    }
}

impl Label {
    /// Resolves every path field of the label.
    pub fn resolve(self, root_dir: &Vec<u8>, conf_dir: &Vec<u8>) -> (r: Label)
        ensures
            r@ == resolve_label_spec(self@, root_dir@, conf_dir@),
    {
        let mut l = self;
        l.kernel_or_config = l.kernel_or_config.resolve(root_dir, conf_dir);
        l.display = resolve_opt_path(l.display, root_dir, conf_dir);
        l
    }
}

impl Global {
    /// Resolves the label template's paths; the global options themselves
    /// carry no paths.
    pub fn resolve(self, root_dir: &Vec<u8>, conf_dir: &Vec<u8>) -> (r: Global)
        ensures
            r@ == resolve_global_spec(self@, root_dir@, conf_dir@),
    {
        let mut g = self;
        g.label_defaults = g.label_defaults.resolve(root_dir, conf_dir);
        g
    }
}

impl SyslinuxConf {
    /// Resolves every path in the document.  Label names are untouched, so
    /// the collection stays well formed.
    pub fn resolve(self, root_dir: &Vec<u8>, conf_dir: &Vec<u8>) -> (r: SyslinuxConf)
        ensures
            r@ == resolve_conf_spec(self@, root_dir@, conf_dir@),
            self.labels.wf() ==> r.labels.wf(),
    {
        let ghost orig = self.labels@;
        let mut g = self.global;
        g = g.resolve(root_dir, conf_dir);
        let mut src = self.labels.entries;
        let ghost f = |e: (Seq<char>, LabelV)| (e.0, resolve_label_spec(e.1, root_dir@, conf_dir@));
        let mut dst: Vec<(String, Label)> = Vec::new();
        proof {
            assert(src@.map_values(|e: (String, Label)| (e.0@, e.1@)) == orig);
            assert(dst@.map_values(|e: (String, Label)| (e.0@, e.1@)) =~= orig.take(0).map_values(
                f,
            ));
        }
        let total: usize = src.len();
        let mut taken: usize = 0;
        while src.len() > 0
            invariant
                taken + src@.len() == total == orig.len(),
                src@.map_values(|e: (String, Label)| (e.0@, e.1@)) =~= orig.skip(taken as int),
                dst@.map_values(|e: (String, Label)| (e.0@, e.1@)) =~= orig.take(
                    taken as int,
                ).map_values(f),
                f == (|e: (Seq<char>, LabelV)| (e.0, resolve_label_spec(
                    e.1,
                    root_dir@,
                    conf_dir@,
                ))),
            decreases src@.len(),
        {
            let ghost src0 = src@;
            let e = src.remove(0);
            let name = e.0;
            let lab = e.1.resolve(root_dir, conf_dir);
            dst.push((name, lab));
            proof {
                let ev = |x: (String, Label)| (x.0@, x.1@);
                assert(src@ =~= src0.skip(1));
                assert(src0.map_values(ev)[0] == ev(src0[0]));
                assert(orig.skip(taken as int)[0] == orig[taken as int]);
                assert((e.0@, e.1@) == orig[taken as int]);
                assert forall|m: int| 0 <= m < src@.len() implies #[trigger] src@.map_values(
                    ev,
                )[m] == orig.skip(taken + 1)[m] by {
                    assert(src@[m] == src0[m + 1]);
                    assert(src0.map_values(ev)[m + 1] == ev(src0[m + 1]));
                    assert(orig.skip(taken as int)[m + 1] == orig[taken + 1 + m]);
                }
                assert(src@.map_values(ev) =~= orig.skip(taken + 1));
                assert(orig.take(taken + 1).map_values(f) =~= orig.take(taken as int).map_values(
                    f,
                ).push(f(orig[taken as int])));
                assert(dst@.map_values(ev) =~= orig.take(taken as int).map_values(f).push(
                    (name@, lab@),
                ));
                assert(f(orig[taken as int]) == (name@, lab@));
            }
            taken = taken + 1;
        }
        proof {
            assert(orig.take(total as int) =~= orig);
        }
        let labels = Labels { entries: dst };
        proof {
            assert(labels@ =~= orig.map_values(f));
            if labels_unique(orig) {
                assert forall|a: int, b: int| 0 <= a < b < labels@.len() implies labels@[a].0
                    != labels@[b].0 by {
                    assert(labels@[a].0 == orig[a].0);
                    assert(labels@[b].0 == orig[b].0);
                }
            }
        }
        SyslinuxConf { global: g, labels }
    }
}

} // verus!

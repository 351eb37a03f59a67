//! The document model: global options, labels and kernel targets, together
//! with the mathematical views the contracts are stated over.
//!
//! Path-valued fields hold raw path bytes (what the configuration file
//! spelled, and later the resolved form); free-text fields hold decoded
//! strings.  Timeouts are kept in the on-disk unit, deciseconds, with zero
//! mapped to `None` ("disabled").

use vstd::prelude::*;
use crate::text::after_last;

verus! {

// ----------------------------------------------------------------------
// Views
// ----------------------------------------------------------------------
/// View of a kernel-file classification: the variant and the path bytes.
pub enum KernelFileV {
    Linux(Seq<u8>),
    Boot(Seq<u8>),
    BSS(Seq<u8>),
    PXE(Seq<u8>),
    FDImage(Seq<u8>),
    ComBoot(Seq<u8>),
    Com32(Seq<u8>),
}

pub struct KernelV {
    pub kernel_file: Option<KernelFileV>,
    pub initrd: Option<Seq<u8>>,
    pub fdt_dir: Option<Seq<u8>>,
    pub append: Option<Seq<char>>,
}

pub enum KernelOrConfigV {
    Kernel(KernelV),
}

pub struct LabelV {
    pub text_help: Option<Seq<char>>,
    pub kernel_or_config: KernelOrConfigV,
    pub say: Option<Seq<char>>,
    pub display: Option<Seq<u8>>,
}

pub struct GlobalV {
    pub default: Option<Seq<char>>,
    pub ontimeout: Option<Seq<char>>,
    pub onerror: Option<Seq<char>>,
    pub timeout: Option<u32>,
    pub total_timeout: Option<u32>,
    pub label_defaults: LabelV,
}

pub struct SyslinuxConfV {
    pub global: GlobalV,
    pub labels: Seq<(Seq<char>, LabelV)>,
}

pub open spec fn kernel_v_default() -> KernelV {
    KernelV { kernel_file: None, initrd: None, fdt_dir: None, append: None }
}

pub open spec fn label_v_default() -> LabelV {
    LabelV {
        text_help: None,
        kernel_or_config: KernelOrConfigV::Kernel(kernel_v_default()),
        say: None,
        display: None,
    }
}

pub open spec fn global_v_default() -> GlobalV {
    GlobalV {
        default: None,
        ontimeout: None,
        onerror: None,
        timeout: None,
        total_timeout: None,
        label_defaults: label_v_default(),
    }
}

pub open spec fn view_opt_string(o: Option<String>) -> Option<Seq<char>> {
    match o {
        Some(s) => Some(s@),
        None => None,
    }
}

pub open spec fn view_opt_bytes(o: Option<Vec<u8>>) -> Option<Seq<u8>> {
    match o {
        Some(v) => Some(v@),
        None => None,
    }
}

// ----------------------------------------------------------------------
// Executable document types
// ----------------------------------------------------------------------
/// What kind of payload a kernel path points at, with the path itself.
/// The variant is either stated by a dedicated tag or inferred from the
/// path's extension (see [`KernelFile::guess`]).
#[derive(Debug, Clone, PartialEq, Eq)]
pub enum KernelFile {
    Linux(Vec<u8>),
    Boot(Vec<u8>),
    BSS(Vec<u8>),
    PXE(Vec<u8>),
    FDImage(Vec<u8>),
    ComBoot(Vec<u8>),
    Com32(Vec<u8>),
}

impl View for KernelFile {
    type V = KernelFileV;

    open spec fn view(&self) -> KernelFileV {
        match self {
            KernelFile::Linux(p) => KernelFileV::Linux(p@),
            KernelFile::Boot(p) => KernelFileV::Boot(p@),
            KernelFile::BSS(p) => KernelFileV::BSS(p@),
            KernelFile::PXE(p) => KernelFileV::PXE(p@),
            KernelFile::FDImage(p) => KernelFileV::FDImage(p@),
            KernelFile::ComBoot(p) => KernelFileV::ComBoot(p@),
            KernelFile::Com32(p) => KernelFileV::Com32(p@),
        }
    }
}

/// A kernel boot target: the kernel image and its auxiliary files.
#[derive(Debug, Clone, PartialEq, Eq)]
pub struct Kernel {
    pub kernel_file: Option<KernelFile>,
    pub initrd: Option<Vec<u8>>,
    pub fdt_dir: Option<Vec<u8>>,
    pub append: Option<String>,
}

impl View for Kernel {
    type V = KernelV;

    open spec fn view(&self) -> KernelV {
        KernelV {
            kernel_file: match self.kernel_file {
                Some(k) => Some(k@),
                None => None,
            },
            initrd: view_opt_bytes(self.initrd),
            fdt_dir: view_opt_bytes(self.fdt_dir),
            append: view_opt_string(self.append),
        }
    }
}

/// What a label boots.  A second arm pointing at another configuration file
/// is reserved for extension and is never produced by the parser.
#[derive(Debug, Clone, PartialEq, Eq)]
pub enum KernelOrConfig {
    Kernel(Kernel),
}

impl View for KernelOrConfig {
    type V = KernelOrConfigV;

    open spec fn view(&self) -> KernelOrConfigV {
        match self {
            KernelOrConfig::Kernel(k) => KernelOrConfigV::Kernel(k@),
        }
    }
}

/// One selectable boot entry.
#[derive(Debug, Clone, PartialEq, Eq)]
pub struct Label {
    pub text_help: Option<String>,
    pub kernel_or_config: KernelOrConfig,
    pub say: Option<String>,
    pub display: Option<Vec<u8>>,
}

impl View for Label {
    type V = LabelV;

    open spec fn view(&self) -> LabelV {
        LabelV {
            text_help: view_opt_string(self.text_help),
            kernel_or_config: self.kernel_or_config@,
            say: view_opt_string(self.say),
            display: view_opt_bytes(self.display),
        }
    }
}

impl Default for Label {
    /// The zero-valued label every field fold starts from.
    fn default() -> (r: Label)
        ensures
            r@ == label_v_default(),
    {
        Label {
            text_help: None,
            kernel_or_config: KernelOrConfig::Kernel(
                Kernel { kernel_file: None, initrd: None, fdt_dir: None, append: None },
            ),
            say: None,
            display: None,
        }
    }
}

/// The global-scope options of a configuration file.
#[derive(Debug, Clone, PartialEq, Eq)]
pub struct Global {
    pub default: Option<String>,
    pub ontimeout: Option<String>,
    pub onerror: Option<String>,
    /// Timeout in deciseconds; `None` when the authored value was zero.
    pub timeout: Option<u32>,
    /// Total timeout in deciseconds; `None` when the authored value was zero.
    pub total_timeout: Option<u32>,
    /// Label-scope fields seen before any explicit label declaration.
    /// Kept as authored; nothing merges this template into declared labels.
    pub label_defaults: Label,
}

impl View for Global {
    type V = GlobalV;

    open spec fn view(&self) -> GlobalV {
        GlobalV {
            default: view_opt_string(self.default),
            ontimeout: view_opt_string(self.ontimeout),
            onerror: view_opt_string(self.onerror),
            timeout: self.timeout,
            total_timeout: self.total_timeout,
            label_defaults: self.label_defaults@,
        }
    }
}

impl Default for Global {
    fn default() -> (r: Global)
        ensures
            r@ == global_v_default(),
    {
        Global {
            default: None,
            ontimeout: None,
            onerror: None,
            timeout: None,
            total_timeout: None,
            label_defaults: Label::default(),
        }
    }
}

/// Raw timeout conversion: zero means a disabled timeout, any other value
/// is kept as authored, in deciseconds.
pub open spec fn conv_timeout_spec(t: u32) -> Option<u32> {
    if t == 0 {
        None
    } else {
        Some(t)
    }
}

impl Global {
    /// Maps a raw authored timeout to the stored form: `None` exactly when
    /// the raw value is zero, otherwise the raw decisecond count itself.
    pub fn conv_timeout(timeout: u32) -> (r: Option<u32>)
        ensures
            r == conv_timeout_spec(timeout),
            timeout == 0 <==> r is None,
            timeout > 0 ==> r == Some(timeout),
    {
        if timeout == 0 {
            None
        } else {
            Some(timeout)
        }
    }
}

/// The label collection: name-keyed, first declaration wins, first-seen
/// order preserved.
#[derive(Debug, Clone, PartialEq, Eq)]
pub struct Labels {
    pub entries: Vec<(String, Label)>,
}

impl View for Labels {
    type V = Seq<(Seq<char>, LabelV)>;

    open spec fn view(&self) -> Seq<(Seq<char>, LabelV)> {
        self.entries@.map_values(|e: (String, Label)| (e.0@, e.1@))
    }
}

/// Whether a name is already bound in a label sequence.
pub open spec fn labels_contain(ls: Seq<(Seq<char>, LabelV)>, name: Seq<char>) -> bool {
    exists|j: int| 0 <= j < ls.len() && ls[j].0 == name
}

/// First-write-wins insertion: a duplicate name leaves the collection
/// unchanged.
pub open spec fn insert_label_spec(
    ls: Seq<(Seq<char>, LabelV)>,
    name: Seq<char>,
    label: LabelV,
) -> Seq<(Seq<char>, LabelV)> {
    if labels_contain(ls, name) {
        ls
    } else {
        ls.push((name, label))
    }
}

/// All names in the sequence are distinct.
pub open spec fn labels_unique(ls: Seq<(Seq<char>, LabelV)>) -> bool {
    forall|i: int, j: int| 0 <= i < j < ls.len() ==> ls[i].0 != ls[j].0
}

impl Labels {
    pub open spec fn wf(&self) -> bool {
        labels_unique(self@)
    }

    pub fn new() -> (r: Labels)
        ensures
            r@ == Seq::<(Seq<char>, LabelV)>::empty(),
            r.wf(),
    {
        let r = Labels { entries: Vec::new() };
        proof {
            assert(r@ =~= Seq::<(Seq<char>, LabelV)>::empty());
        }
        r
    }

    pub fn len(&self) -> (r: usize)
        ensures
            r == self@.len(),
    {
        self.entries.len()
    }

    /// The label bound to `name`, if any.
    pub fn get(&self, name: &String) -> (r: Option<&Label>)
        ensures
            match r {
                Some(l) => exists|j: int|
                    0 <= j < self@.len() && self@[j] == (name@, l@),
                None => !labels_contain(self@, name@),
            },
    {
        let n = self.entries.len();
        let mut i: usize = 0;
        while i < n
            invariant
                0 <= i <= n == self.entries@.len(),
                forall|j: int| 0 <= j < i ==> self@[j].0 != name@,
            decreases n - i,
        {
            if self.entries[i].0 == *name {
                assert(self@[i as int] == (self.entries@[i as int].0@, self.entries@[i as int].1@));
                return Some(&self.entries[i].1);
            }
            assert(self@[i as int].0 == self.entries@[i as int].0@);
            i = i + 1;
        }
        None
    }

    /// Inserts a `(name, label)` pair unless the name is already bound;
    /// a duplicate is discarded and reported by the `false` result.
    pub fn insert(&mut self, name: String, label: Label) -> (r: bool)
        ensures
            final(self)@ == insert_label_spec(old(self)@, name@, label@),
            r == !labels_contain(old(self)@, name@),
            old(self).wf() ==> final(self).wf(),
    {
        let n = self.entries.len();
        let mut i: usize = 0;
        while i < n
            invariant
                0 <= i <= n == self.entries@.len(),
                forall|j: int| 0 <= j < i ==> self@[j].0 != name@,
            decreases n - i,
        {
            if self.entries[i].0 == name {
                assert(self@[i as int].0 == name@);
                return false;
            }
            assert(self@[i as int].0 == self.entries@[i as int].0@);
            i = i + 1;
        }
        let ghost before = self@;
        self.entries.push((name, label));
        proof {
            assert(self@ =~= before.push((name@, label@)));
            assert forall|a: int, b: int| 0 <= a < b < self@.len() && labels_unique(before)
                implies self@[a].0 != self@[b].0 by {
                if b < before.len() {
                } else {
                    assert(self@[b] == (name@, label@));
                }
            }
        }
        true
    }
}

/// The whole configuration document.
#[derive(Debug, Clone, PartialEq, Eq)]
pub struct SyslinuxConf {
    pub global: Global,
    pub labels: Labels,
}

impl View for SyslinuxConf {
    type V = SyslinuxConfV;

    open spec fn view(&self) -> SyslinuxConfV {
        SyslinuxConfV { global: self.global@, labels: self.labels@ }
    }
}

// ----------------------------------------------------------------------
// Kernel-file classification from a path's extension
// ----------------------------------------------------------------------
/// The extension of a path's final component: the bytes after the last `.`
/// of the part after the last `/`, empty when there is no such `.` or when
/// it sits at the start of the component (a hidden file).
pub open spec fn ext_of(p: Seq<u8>) -> Seq<u8> {
    let name = after_last(p, 47);
    let e = after_last(name, 46);
    if e.len() + 2 <= name.len() {
        e
    } else {
        Seq::empty()
    }
}

/// The kernel-file classification of a path under the generic kernel tag:
/// `bin`/`bs` boot sector, `bss` patched boot sector, `0` PXE bootstrap,
/// `img` floppy image, `cbt`/`com` COMBOOT, `c32` COM32, anything else a
/// Linux kernel.  Extensions are matched case-sensitively.
pub open spec fn guess_spec(p: Seq<u8>) -> KernelFileV {
    let e = ext_of(p);
    if e == seq![98u8, 105u8, 110u8] || e == seq![98u8, 115u8] {
        KernelFileV::Boot(p)
    } else if e == seq![98u8, 115u8, 115u8] {
        KernelFileV::BSS(p)
    } else if e == seq![48u8] {
        KernelFileV::PXE(p)
    } else if e == seq![105u8, 109u8, 103u8] {
        KernelFileV::FDImage(p)
    } else if e == seq![99u8, 98u8, 116u8] || e == seq![99u8, 111u8, 109u8] {
        KernelFileV::ComBoot(p)
    } else if e == seq![99u8, 51u8, 50u8] {
        KernelFileV::Com32(p)
    } else {
        KernelFileV::Linux(p)
    }
}

/// Range of the extension of `p` within `p`, as indices.
pub fn get_extension(p: &Vec<u8>) -> (r: (usize, usize))
    ensures
        r.0 <= r.1 <= p@.len(),
        p@.subrange(r.0 as int, r.1 as int) == ext_of(p@),
{
    let len = p.len();
    let n0 = crate::text::find_after_last(p.as_slice(), 0, len, 47);
    let e0 = crate::text::find_after_last(p.as_slice(), n0, len, 46);
    proof {
        assert(p@.subrange(0, len as int) =~= p@);
    }
    if e0 >= n0 && e0 - n0 >= 2 {
        (e0, len)
    } else {
        proof {
            assert(p@.subrange(len as int, len as int) =~= Seq::<u8>::empty());
        }
        (len, len)
    }
}

impl KernelFile {
    /// Classifies a kernel path by its extension.
    pub fn guess(kernel_path: Vec<u8>) -> (r: KernelFile)
        ensures
            r@ == guess_spec(kernel_path@),
    {
        let (lo, hi) = get_extension(&kernel_path);
        let s = kernel_path.as_slice();
        let bin = [98u8, 105u8, 110u8];
        let bs = [98u8, 115u8];
        let bss = [98u8, 115u8, 115u8];
        let pxe0 = [48u8];
        let img = [105u8, 109u8, 103u8];
        let cbt = [99u8, 98u8, 116u8];
        let com = [99u8, 111u8, 109u8];
        let c32 = [99u8, 51u8, 50u8];
        proof {
            assert(bin@ =~= seq![98u8, 105u8, 110u8]);
            assert(bs@ =~= seq![98u8, 115u8]);
            assert(bss@ =~= seq![98u8, 115u8, 115u8]);
            assert(pxe0@ =~= seq![48u8]);
            assert(img@ =~= seq![105u8, 109u8, 103u8]);
            assert(cbt@ =~= seq![99u8, 98u8, 116u8]);
            assert(com@ =~= seq![99u8, 111u8, 109u8]);
            assert(c32@ =~= seq![99u8, 51u8, 50u8]);
        }
        if crate::text::range_eq(s, lo, hi, bin.as_slice()) || crate::text::range_eq(
            s,
            lo,
            hi,
            bs.as_slice(),
        ) {
            KernelFile::Boot(kernel_path)
        } else if crate::text::range_eq(s, lo, hi, bss.as_slice()) {
            KernelFile::BSS(kernel_path)
        } else if crate::text::range_eq(s, lo, hi, pxe0.as_slice()) {
            KernelFile::PXE(kernel_path)
        } else if crate::text::range_eq(s, lo, hi, img.as_slice()) {
            KernelFile::FDImage(kernel_path)
        } else if crate::text::range_eq(s, lo, hi, cbt.as_slice()) || crate::text::range_eq(
            s,
            lo,
            hi,
            com.as_slice(),
        ) {
            KernelFile::ComBoot(kernel_path)
        } else if crate::text::range_eq(s, lo, hi, c32.as_slice()) {
            KernelFile::Com32(kernel_path)
        } else {
            KernelFile::Linux(kernel_path)
        }
    }
}

// ----------------------------------------------------------------------
// Parsed fields and the default-then-overwrite folds
// ----------------------------------------------------------------------
/// View of one label-scope field.
pub enum LabelFieldV {
    TextHelp(Seq<char>),
    Say(Seq<char>),
    Display(Seq<u8>),
    KernelFile(KernelFileV),
    InitRD(Seq<u8>),
    FDTDir(Seq<u8>),
    Append(Seq<char>),
}

/// One label-scope field as the parser produces it.
#[derive(Debug, Clone, PartialEq, Eq)]
pub enum LabelField {
    TextHelp(String),
    Say(String),
    Display(Vec<u8>),
    KernelFile(KernelFile),
    InitRD(Vec<u8>),
    FDTDir(Vec<u8>),
    Append(String),
}

impl View for LabelField {
    type V = LabelFieldV;

    open spec fn view(&self) -> LabelFieldV {
        match self {
            LabelField::TextHelp(v) => LabelFieldV::TextHelp(v@),
            LabelField::Say(v) => LabelFieldV::Say(v@),
            LabelField::Display(v) => LabelFieldV::Display(v@),
            LabelField::KernelFile(v) => LabelFieldV::KernelFile(v@),
            LabelField::InitRD(v) => LabelFieldV::InitRD(v@),
            LabelField::FDTDir(v) => LabelFieldV::FDTDir(v@),
            LabelField::Append(v) => LabelFieldV::Append(v@),
        }
    }
}

/// View of one global-scope field; label-scope fields seen before any
/// label declaration are wrapped in `Label`.
pub enum GlobalFieldV {
    Default(Seq<char>),
    OnTimeout(Seq<char>),
    OnError(Seq<char>),
    Timeout(u32),
    TotalTimeout(u32),
    Label(LabelFieldV),
}

/// One global-scope field as the parser produces it.
#[derive(Debug, Clone, PartialEq, Eq)]
pub enum GlobalField {
    Default(String),
    OnTimeout(String),
    OnError(String),
    Timeout(u32),
    TotalTimeout(u32),
    Label(LabelField),
}

impl View for GlobalField {
    type V = GlobalFieldV;

    open spec fn view(&self) -> GlobalFieldV {
        match self {
            GlobalField::Default(v) => GlobalFieldV::Default(v@),
            GlobalField::OnTimeout(v) => GlobalFieldV::OnTimeout(v@),
            GlobalField::OnError(v) => GlobalFieldV::OnError(v@),
            GlobalField::Timeout(v) => GlobalFieldV::Timeout(*v),
            GlobalField::TotalTimeout(v) => GlobalFieldV::TotalTimeout(*v),
            GlobalField::Label(v) => GlobalFieldV::Label(v@),
        }
    }
}

/// Folding one label-scope field into a label: the field overwrites its
/// slot, every other slot is kept.
pub open spec fn build_label_spec(l: LabelV, f: LabelFieldV) -> LabelV {
    match f {
        LabelFieldV::TextHelp(v) => LabelV { text_help: Some(v), ..l },
        LabelFieldV::Say(v) => LabelV { say: Some(v), ..l },
        LabelFieldV::Display(v) => LabelV { display: Some(v), ..l },
        LabelFieldV::KernelFile(v) => match l.kernel_or_config {
            KernelOrConfigV::Kernel(k) => LabelV {
                kernel_or_config: KernelOrConfigV::Kernel(KernelV { kernel_file: Some(v), ..k }),
                ..l
            },
        },
        LabelFieldV::InitRD(v) => match l.kernel_or_config {
            KernelOrConfigV::Kernel(k) => LabelV {
                kernel_or_config: KernelOrConfigV::Kernel(KernelV { initrd: Some(v), ..k }),
                ..l
            },
        },
        LabelFieldV::FDTDir(v) => match l.kernel_or_config {
            KernelOrConfigV::Kernel(k) => LabelV {
                kernel_or_config: KernelOrConfigV::Kernel(KernelV { fdt_dir: Some(v), ..k }),
                ..l
            },
        },
        LabelFieldV::Append(v) => match l.kernel_or_config {
            KernelOrConfigV::Kernel(k) => LabelV {
                kernel_or_config: KernelOrConfigV::Kernel(KernelV { append: Some(v), ..k }),
                ..l
            },
        },
    }
}

/// Folding one global-scope field into the global options; a wrapped
/// label-scope field lands in the label template.
pub open spec fn build_global_spec(g: GlobalV, f: GlobalFieldV) -> GlobalV {
    match f {
        GlobalFieldV::Default(v) => GlobalV { default: Some(v), ..g },
        GlobalFieldV::OnTimeout(v) => GlobalV { ontimeout: Some(v), ..g },
        GlobalFieldV::OnError(v) => GlobalV { onerror: Some(v), ..g },
        GlobalFieldV::Timeout(v) => GlobalV { timeout: conv_timeout_spec(v), ..g },
        GlobalFieldV::TotalTimeout(v) => GlobalV { total_timeout: conv_timeout_spec(v), ..g },
        GlobalFieldV::Label(lf) => GlobalV {
            label_defaults: build_label_spec(g.label_defaults, lf),
            ..g
        },
    }
}

impl Label {
    /// Folds one field into this label, overwriting the field's slot.
    pub fn build(self, f: LabelField) -> (r: Label)
        ensures
            r@ == build_label_spec(self@, f@),
    {
        let mut l = self;
        match f {
            LabelField::TextHelp(v) => {
                l.text_help = Some(v);
            },
            LabelField::Say(v) => {
                l.say = Some(v);
            },
            LabelField::Display(v) => {
                l.display = Some(v);
            },
            LabelField::KernelFile(v) => {
                match &mut l.kernel_or_config {
                    KernelOrConfig::Kernel(k) => {
                        k.kernel_file = Some(v);
                    },
                }
            },
            LabelField::InitRD(v) => {
                match &mut l.kernel_or_config {
                    KernelOrConfig::Kernel(k) => {
                        k.initrd = Some(v);
                    },
                }
            },
            LabelField::FDTDir(v) => {
                match &mut l.kernel_or_config {
                    KernelOrConfig::Kernel(k) => {
                        k.fdt_dir = Some(v);
                    },
                }
            },
            LabelField::Append(v) => {
                match &mut l.kernel_or_config {
                    KernelOrConfig::Kernel(k) => {
                        k.append = Some(v);
                    },
                }
            },
        }
        l
    }
}

impl Global {
    /// Folds one field into the global options.
    pub fn build(self, f: GlobalField) -> (r: Global)
        ensures
            r@ == build_global_spec(self@, f@),
    {
        let mut g = self;
        match f {
            GlobalField::Default(v) => {
                g.default = Some(v);
            },
            GlobalField::OnTimeout(v) => {
                g.ontimeout = Some(v);
            },
            GlobalField::OnError(v) => {
                g.onerror = Some(v);
            },
            GlobalField::Timeout(v) => {
                g.timeout = Global::conv_timeout(v);
            },
            GlobalField::TotalTimeout(v) => {
                g.total_timeout = Global::conv_timeout(v);
            },
            GlobalField::Label(lf) => {
                let built = g.label_defaults.build(lf);
                g.label_defaults = built;
            },
        }
        g
    }
}

/// A diagnostic the parser emits while recovering locally: an unknown or
/// unsupported tag line, or a label declaration whose name is already
/// taken.  Each carries the zero-based logical line it was noticed on;
/// neither stops the parse.
#[derive(Debug, Clone, Copy, PartialEq, Eq, Structural)]
pub enum Warning {
    UnknownTag(usize),
    DuplicateLabel(usize),
}

/// The error taxonomy of the reader.  Line-indexed variants carry the
/// zero-based logical line on which the failure was noticed.
#[derive(Debug, Clone, Copy, PartialEq, Eq, Structural)]
pub enum ReaderError {
    /// The underlying file could not be opened or read.
    IOError,
    /// A consumed line's bytes are not valid UTF-8.
    EncodingError(usize),
    /// A tag's value failed to parse as its expected type.
    MalformedValueError(usize),
    /// The parse stopped before the end of the buffer.
    TrailingDataError,
    /// No candidate configuration file exists.
    NotFoundError,
}

} // verus!

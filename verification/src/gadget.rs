//! The configuration model: one selectable gadget role with its static
//! attributes, and the derivation of the kernel module name and ordered
//! argument tokens that activate it.

use vstd::prelude::*;
use vstd::string::StringExecFns;

verus! {

/// How a gadget's icon is described: a bitmap file to rasterize at display
/// time, or a theme icon name resolved by the presentation layer. The core
/// never interprets pixel data.
#[derive(Clone, Debug)]
pub enum IconKind {
    File(String),
    Resource(String),
}

/// Model of an `IconKind`.
#[verifier::ext_equal]
pub enum IconV {
    File(Seq<char>),
    Resource(Seq<char>),
}

impl View for IconKind {
    type V = IconV;

    open spec fn view(&self) -> IconV {
        match self {
            IconKind::File(p) => IconV::File(p@),
            IconKind::Resource(n) => IconV::Resource(n@),
        }
    }
}

/// Static attributes of one mass-storage image, immutable after load.
/// `read_only` and `as_cdrom` default to `false` when absent.
#[derive(Clone, Debug)]
pub struct ImageInfo {
    pub name: String,
    pub path: String,
    pub icon: IconKind,
    pub read_only: Option<bool>,
    pub as_cdrom: Option<bool>,
}

/// Model of an `ImageInfo`: the optional booleans are normalised to their
/// effective value, absent meaning `false`.
#[verifier::ext_equal]
pub struct ImageInfoV {
    pub name: Seq<char>,
    pub path: Seq<char>,
    pub icon: IconV,
    pub read_only: bool,
    pub as_cdrom: bool,
}

/// The effective value of an optional boolean attribute: absent means `false`.
pub open spec fn flag_set(o: Option<bool>) -> bool {
    match o {
        Some(b) => b,
        None => false,
    }
}

impl View for ImageInfo {
    type V = ImageInfoV;

    open spec fn view(&self) -> ImageInfoV {
        ImageInfoV {
            name: self.name@,
            path: self.path@,
            icon: self.icon@,
            read_only: flag_set(self.read_only),
            as_cdrom: flag_set(self.as_cdrom),
        }
    }
}

/// One selectable USB gadget role.
#[derive(Clone, Debug)]
pub enum Gadget {
    MassStorage(ImageInfo),
    Serial,
    Ethernet,
}

/// Model of a `Gadget`.
#[verifier::ext_equal]
pub enum GadgetV {
    MassStorage(ImageInfoV),
    Serial,
    Ethernet,
}

impl View for Gadget {
    type V = GadgetV;

    open spec fn view(&self) -> GadgetV {
        match self {
            Gadget::MassStorage(i) => GadgetV::MassStorage(i@),
            Gadget::Serial => GadgetV::Serial,
            Gadget::Ethernet => GadgetV::Ethernet,
        }
    }
}

impl DeepView for Gadget {
    type V = GadgetV;

    open spec fn deep_view(&self) -> GadgetV {
        self.view()
    }
}

/// The fixed kernel module identifier for each gadget role.
pub open spec fn spec_module_name(g: GadgetV) -> Seq<char> {
    match g {
        GadgetV::MassStorage(_) => "g_mass_storage"@,
        GadgetV::Serial => "g_serial"@,
        GadgetV::Ethernet => "g_ether"@,
    }
}

/// The ordered `key=value` tokens handed to the activation command. For a
/// mass-storage image: `file=<path>` first, then `cdrom=y` only when the
/// image is exposed as a CD-ROM (never `cdrom=n`), then always exactly one
/// of `ro=1` or `ro=0`. Serial and ethernet take no arguments.
pub open spec fn spec_module_arguments(g: GadgetV) -> Seq<Seq<char>> {
    match g {
        GadgetV::MassStorage(img) => {
            let file_token = "file="@ + img.path;
            let ro_token: Seq<char> = if img.read_only {
                "ro=1"@
            } else {
                "ro=0"@
            };
            if img.as_cdrom {
                seq![file_token, "cdrom=y"@, ro_token]
            } else {
                seq![file_token, ro_token]
            }
        },
        GadgetV::Serial => Seq::empty(),
        GadgetV::Ethernet => Seq::empty(),
    }
}

/// The label the presentation layer shows for each gadget: an image shows
/// its configured name, the bare roles show fixed labels.
pub open spec fn spec_display_name(g: GadgetV) -> Seq<char> {
    match g {
        GadgetV::MassStorage(img) => img.name,
        GadgetV::Serial => "Serial"@,
        GadgetV::Ethernet => "Ethernet"@,
    }
}

/// No token of `args` starts with `prefix`.
pub open spec fn spec_no_token_with_prefix(args: Seq<Seq<char>>, prefix: Seq<char>) -> bool {
    forall|i: int| 0 <= i < args.len() ==> !(prefix.is_prefix_of(#[trigger] args[i]))
}

/// A mass-storage image not exposed as a CD-ROM never yields a `cdrom=`
/// token among its module arguments.
pub proof fn lemma_no_cdrom_token_unless_requested(img: ImageInfoV)
    requires
        !img.as_cdrom,
    ensures
        spec_no_token_with_prefix(spec_module_arguments(GadgetV::MassStorage(img)), "cdrom="@),
{
    let args = spec_module_arguments(GadgetV::MassStorage(img));
    reveal_strlit("cdrom=");
    reveal_strlit("file=");
    reveal_strlit("ro=1");
    reveal_strlit("ro=0");
    assert(args[0][0] == 'f');
    assert(args[1][0] == 'r');
    assert forall|i: int| 0 <= i < args.len() implies !("cdrom="@.is_prefix_of(args[i])) by {
        if "cdrom="@.is_prefix_of(args[i]) {
            assert(args[i].subrange(0, 6)[0] == args[i][0]);
        }
    }
}

/// A mass-storage image exposed as a CD-ROM yields exactly one `cdrom=y`
/// token, after the `file=` token and before the read-only token.
pub proof fn lemma_cdrom_token_once(img: ImageInfoV)
    requires
        img.as_cdrom,
    ensures
        spec_module_arguments(GadgetV::MassStorage(img)).len() == 3,
        spec_module_arguments(GadgetV::MassStorage(img))[1] == "cdrom=y"@,
        spec_module_arguments(GadgetV::MassStorage(img))[0] != "cdrom=y"@,
        spec_module_arguments(GadgetV::MassStorage(img))[2] != "cdrom=y"@,
        "file="@.is_prefix_of(spec_module_arguments(GadgetV::MassStorage(img))[0]),
        spec_module_arguments(GadgetV::MassStorage(img))[2] == (if img.read_only {
            "ro=1"@
        } else {
            "ro=0"@
        }),
{
    let args = spec_module_arguments(GadgetV::MassStorage(img));
    reveal_strlit("cdrom=y");
    reveal_strlit("file=");
    reveal_strlit("ro=1");
    reveal_strlit("ro=0");
    assert(args[0][0] == 'f');
    assert(args[2].len() == 4);
    assert("file="@ =~= args[0].subrange(0, 5));
}

/// The arguments of a mass-storage image end with exactly one read-only
/// token, `ro=1` when the image is read-only and `ro=0` otherwise, and no
/// earlier token starts with `ro=`.
pub proof fn lemma_ro_token_last(img: ImageInfoV)
    ensures
        spec_module_arguments(GadgetV::MassStorage(img)).len() >= 2,
        spec_module_arguments(GadgetV::MassStorage(img)).last() == (if img.read_only {
            "ro=1"@
        } else {
            "ro=0"@
        }),
        spec_no_token_with_prefix(
            spec_module_arguments(GadgetV::MassStorage(img)).drop_last(),
            "ro="@,
        ),
{
    let args = spec_module_arguments(GadgetV::MassStorage(img));
    reveal_strlit("ro=");
    reveal_strlit("cdrom=y");
    reveal_strlit("file=");
    assert(args[0][0] == 'f');
    if img.as_cdrom {
        assert(args[1][0] == 'c');
    }
    assert forall|i: int| 0 <= i < args.drop_last().len() implies !("ro="@.is_prefix_of(
        args.drop_last()[i],
    )) by {
        if "ro="@.is_prefix_of(args.drop_last()[i]) {
            assert(args.drop_last()[i].subrange(0, 3)[0] == args[i][0]);
        }
    }
}

/// The serial and ethernet roles take no module arguments at all.
pub proof fn lemma_plain_roles_take_no_arguments()
    ensures
        spec_module_arguments(GadgetV::Serial) == Seq::<Seq<char>>::empty(),
        spec_module_arguments(GadgetV::Ethernet) == Seq::<Seq<char>>::empty(),
{
}

/// `module_name` is total, with one fixed name per gadget role, and the
/// three names are pairwise distinct.
pub proof fn lemma_module_name_fixed(g: GadgetV)
    ensures
        g is MassStorage ==> spec_module_name(g) == "g_mass_storage"@,
        g is Serial ==> spec_module_name(g) == "g_serial"@,
        g is Ethernet ==> spec_module_name(g) == "g_ether"@,
        "g_mass_storage"@ != "g_serial"@,
        "g_mass_storage"@ != "g_ether"@,
        "g_serial"@ != "g_ether"@,
{
    reveal_strlit("g_mass_storage");
    reveal_strlit("g_serial");
    reveal_strlit("g_ether");
    assert("g_mass_storage"@.len() == 14);
    assert("g_serial"@.len() == 8);
    assert("g_ether"@.len() == 7);
}

/// The effective value of an optional boolean attribute.
pub fn flag(o: &Option<bool>) -> (r: bool)
    ensures
        r == flag_set(*o),
{
    match o {
        Some(b) => *b,
        None => false,
    }
}

impl Gadget {
    /// The fixed kernel module identifier for this gadget role.
    pub fn module_name(&self) -> (r: String)
        ensures
            r@ == spec_module_name(self@),
    {
        match self {
            Gadget::MassStorage(_) => String::from_str("g_mass_storage"),
            Gadget::Serial => String::from_str("g_serial"),
            Gadget::Ethernet => String::from_str("g_ether"),
        }
    }

    /// The label shown for this gadget in a list of selectable items.
    pub fn display_name(&self) -> (r: String)
        ensures
            r@ == spec_display_name(self@),
    {
        match self {
            Gadget::MassStorage(image) => image.name.clone(),
            Gadget::Serial => String::from_str("Serial"),
            Gadget::Ethernet => String::from_str("Ethernet"),
        }
    }

    /// The ordered argument tokens for the activation command.
    pub fn module_arguments(&self) -> (r: Vec<String>)
        ensures
            r.deep_view() == spec_module_arguments(self@),
    {
        match self {
            Gadget::MassStorage(image) => {
                let mut arguments: Vec<String> = Vec::new();
                arguments.push(String::from_str("file=").concat(image.path.as_str()));
                if flag(&image.as_cdrom) {
                    arguments.push(String::from_str("cdrom=y"));
                }
                if flag(&image.read_only) {
                    arguments.push(String::from_str("ro=1"));
                } else {
                    arguments.push(String::from_str("ro=0"));
                }
                proof {
                    assert(arguments.deep_view() =~= spec_module_arguments(self@));
                }
                arguments
            },
            Gadget::Serial => {
                let r: Vec<String> = Vec::new();
                proof {
                    assert(r.deep_view() =~= Seq::<Seq<char>>::empty());
                }
                r
            },
            Gadget::Ethernet => {
                let r: Vec<String> = Vec::new();
                proof {
                    assert(r.deep_view() =~= Seq::<Seq<char>>::empty());
                }
                r
            },
        }
    }
}

} // verus!

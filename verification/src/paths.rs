//! Where the reader keeps its files: draft names, the state file, the IPC
//! socket and the desktop-integration files. Paths are built as text; the
//! environment values they start from are read by the caller.

use vstd::prelude::*;
use vstd::string::StringSliceAdditionalSpecFns;

use crate::text::{push_decimal, push_hex_padded, push_str, decimal, hex_padded};

verus! {

broadcast use vstd::string::group_string_axioms;

/// `base` joined with the relative component `comp`, as `PathBuf::push`
/// does for a relative component: a `/` is added unless `base` is empty or
/// already ends with one.
pub open spec fn path_join(base: Seq<char>, comp: Seq<char>) -> Seq<char> {
    if base.len() == 0 {
        comp
    } else if base.last() == '/' {
        base + comp
    } else {
        base + "/"@ + comp
    }
}

/// Joins a relative component onto a path.
pub fn join_path(base: &str, comp: &str) -> (r: String)
    ensures
        r@ == path_join(base@, comp@),
{
    let mut r = String::new();
    push_str(&mut r, base);
    let v = crate::text::chars_of(base);
    if v.len() == 0 {
    } else if v[v.len() - 1] == '/' {
    } else {
        push_str(&mut r, "/");
    }
    push_str(&mut r, comp);
    assert(r@ =~= path_join(base@, comp@));
    r
}

// ---------------------------------------------------------------------------
// Review drafts
// ---------------------------------------------------------------------------

/// Subdirectory (under the system temp dir) that holds all review drafts.
pub const DRAFT_DIR: &'static str = "smdr-drafts";

/// FNV-1a offset basis (64-bit).
pub const FNV_OFFSET: u64 = 0xcbf2_9ce4_8422_2325;

/// FNV-1a prime (64-bit).
pub const FNV_PRIME: u64 = 0x0000_0100_0000_01b3;

/// FNV-1a 64-bit hash of a byte string.
pub open spec fn fnv1a(bytes: Seq<u8>) -> u64
    decreases bytes.len(),
{
    if bytes.len() == 0 {
        FNV_OFFSET
    } else {
        (fnv1a(bytes.drop_last()) ^ (bytes.last() as u64)).wrapping_mul(FNV_PRIME)
    }
}

/// The FNV-1a 64-bit hash of a path's UTF-8 text, as 16 lower-case hex
/// digits. Stable across runs and toolchains, so a draft is found again.
pub fn hash_path(path: &str) -> (r: String)
    ensures
        r@ == hex_padded(fnv1a(path.spec_bytes()) as nat, 16),
        r@.len() == 16,
{
    let bytes = path.as_bytes();
    let mut h: u64 = FNV_OFFSET;
    let mut i: usize = 0;
    while i < bytes.len()
        invariant
            i <= bytes@.len(),
            bytes@ == path.spec_bytes(),
            h == fnv1a(bytes@.take(i as int)),
        decreases bytes@.len() - i,
    {
        assert(bytes@.take(i + 1).drop_last() =~= bytes@.take(i as int));
        h = h ^ (bytes[i] as u64);
        h = h.wrapping_mul(FNV_PRIME);
        i = i + 1;
    }
    assert(bytes@.take(bytes@.len() as int) =~= bytes@);
    let mut r = String::new();
    push_hex_padded(&mut r, h, 16);
    proof {
        lemma_hex_padded_len(h as nat, 16);
    }
    r
}

pub proof fn lemma_hex_padded_len(n: nat, width: nat)
    ensures
        hex_padded(n, width).len() == width,
    decreases width,
{
    if width > 0 {
        lemma_hex_padded_len(n / 16, (width - 1) as nat);
    }
}

/// The draft file name for a document: `<hash>.json`, the hash taken of
/// the document's canonical path.
pub fn draft_file_name(canonical_path: &str) -> (r: String)
    ensures
        r@ == hex_padded(fnv1a(canonical_path.spec_bytes()) as nat, 16) + ".json"@,
{
    let mut r = hash_path(canonical_path);
    push_str(&mut r, ".json");
    r
}

/// The draft path for a document: `<tmp>/smdr-drafts/<hash>.json`.
pub fn draft_path(temp_dir: &str, canonical_path: &str) -> (r: String)
    ensures
        r@ == path_join(
            path_join(temp_dir@, DRAFT_DIR@),
            hex_padded(fnv1a(canonical_path.spec_bytes()) as nat, 16) + ".json"@,
        ),
{
    let dir = join_path(temp_dir, DRAFT_DIR);
    let name = draft_file_name(canonical_path);
    join_path(dir.as_str(), name.as_str())
}

// ---------------------------------------------------------------------------
// Persistent reader state
// ---------------------------------------------------------------------------

/// The state file under a home directory: `<home>/.state/smdr/state`;
/// `None` when the home directory is unknown.
pub fn state_path(home: Option<&str>) -> (r: Option<String>)
    ensures
        home is None ==> r is None,
        home matches Some(h) ==> (r matches Some(p) && p@ == path_join(
            path_join(path_join(h@, ".state"@), "smdr"@),
            "state"@,
        )),
{
    match home {
        None => None,
        Some(h) => {
            let a = join_path(h, ".state");
            let b = join_path(a.as_str(), "smdr");
            Some(join_path(b.as_str(), "state"))
        },
    }
}

// ---------------------------------------------------------------------------
// IPC socket
// ---------------------------------------------------------------------------

/// The socket file name for a user: `smdr-<uid>.sock`.
pub open spec fn socket_name(uid: u32) -> Seq<char> {
    "smdr-"@ + decimal(uid as nat) + ".sock"@
}

/// The IPC socket path: `<XDG_RUNTIME_DIR>/smdr-<uid>.sock` when the
/// runtime directory is set, `/tmp/smdr-<uid>.sock` otherwise.
pub fn socket_path(runtime_dir: Option<&str>, uid: u32) -> (r: Option<String>)
    ensures
        runtime_dir matches Some(d) ==> (r matches Some(p) && p@ == path_join(d@, socket_name(uid))),
        runtime_dir is None ==> (r matches Some(p) && p@ == "/tmp/"@ + socket_name(uid)),
{
    let mut name = String::new();
    push_str(&mut name, "smdr-");
    push_decimal(&mut name, uid as u128);
    push_str(&mut name, ".sock");
    match runtime_dir {
        Some(d) => Some(join_path(d, name.as_str())),
        None => {
            let mut p = String::new();
            push_str(&mut p, "/tmp/");
            push_str(&mut p, name.as_str());
            Some(p)
        },
    }
}

// ---------------------------------------------------------------------------
// Desktop integration
// ---------------------------------------------------------------------------

/// The application id used for the icon and desktop entry.
pub const APP_ID: &'static str = "smdr";

/// The XDG data directory: `$XDG_DATA_HOME` when set, else
/// `<home>/.local/share`.
pub fn xdg_data_home(home: &str, xdg_data_home_env: Option<&str>) -> (r: String)
    ensures
        xdg_data_home_env matches Some(x) ==> r@ == x@,
        xdg_data_home_env is None ==> r@ == path_join(home@, ".local/share"@),
{
    match xdg_data_home_env {
        Some(x) => {
            let mut r = String::new();
            push_str(&mut r, x);
            r
        },
        None => join_path(home, ".local/share"),
    }
}

/// Where the icon goes: `<data>/icons/hicolor/256x256/apps/smdr.png`.
pub fn icon_path(data_home: &str) -> (r: String)
    ensures
        r@ == path_join(path_join(data_home@, "icons/hicolor/256x256/apps"@), "smdr.png"@),
{
    let d = join_path(data_home, "icons/hicolor/256x256/apps");
    join_path(d.as_str(), "smdr.png")
}

/// Where the desktop entry goes: `<data>/applications/smdr.desktop`.
pub fn desktop_entry_path(data_home: &str) -> (r: String)
    ensures
        r@ == path_join(path_join(data_home@, "applications"@), "smdr.desktop"@),
{
    let d = join_path(data_home, "applications");
    join_path(d.as_str(), "smdr.desktop")
}

/// The version stamp line of the desktop entry.
pub open spec fn version_stamp(version: Seq<char>) -> Seq<char> {
    "X-Version="@ + version
}

/// The desktop entry text; its last line is the version stamp.
pub open spec fn desktop_entry(version: Seq<char>) -> Seq<char> {
    "[Desktop Entry]\nType=Application\nName=smdr\nGenericName=Markdown Viewer\nComment=Simple Markdown Reader \u{2014} fast native markdown viewer with vim-style navigation\nExec=smdr %f\nIcon=smdr\nTerminal=false\nCategories=Utility;TextEditor;Viewer;\nMimeType=text/markdown;text/x-markdown;\nKeywords=markdown;md;viewer;reader;\nStartupWMClass=smdr\nStartupNotify=true\n"@
        + version_stamp(version) + "\n"@
}

/// The `.desktop` file contents for `version`.
pub fn desktop_file_contents(version: &str) -> (r: String)
    ensures
        r@ == desktop_entry(version@),
{
    let mut r = String::new();
    push_str(&mut r, "[Desktop Entry]\nType=Application\nName=smdr\nGenericName=Markdown Viewer\nComment=Simple Markdown Reader \u{2014} fast native markdown viewer with vim-style navigation\nExec=smdr %f\nIcon=smdr\nTerminal=false\nCategories=Utility;TextEditor;Viewer;\nMimeType=text/markdown;text/x-markdown;\nKeywords=markdown;md;viewer;reader;\nStartupWMClass=smdr\nStartupNotify=true\n");
    push_str(&mut r, "X-Version=");
    push_str(&mut r, version);
    push_str(&mut r, "\n");
    assert(r@ =~= desktop_entry(version@));
    r
}

/// `true` when no line of the on-disk entry is the current version stamp.
pub open spec fn entry_outdated(contents: Seq<char>, version: Seq<char>) -> bool {
    !(exists|k: int| 0 <= k < crate::text::lines(contents).len() && #[trigger] crate::text::lines(contents)[k] == version_stamp(version))
}

/// Whether an existing desktop entry must be rewritten: its `X-Version`
/// line differs from `version` (or it has none).
pub fn needs_update(contents: &str, version: &str) -> (r: bool)
    ensures
        r == entry_outdated(contents@, version@),
{
    let mut stamp = String::new();
    push_str(&mut stamp, "X-Version=");
    push_str(&mut stamp, version);
    let sv = crate::text::chars_of(stamp.as_str());
    let cv = crate::text::chars_of(contents);
    let ls = crate::text::split_lines(&cv);
    let mut i: usize = 0;
    while i < ls.len()
        invariant
            i <= ls@.len(),
            cv@ == contents@,
            sv@ == version_stamp(version@),
            ls@.len() == crate::text::lines(cv@).len(),
            forall|k: int| 0 <= k < ls@.len() ==> #[trigger] ls@[k]@ == crate::text::lines(cv@)[k],
            forall|k: int| 0 <= k < i ==> crate::text::lines(cv@)[k] != version_stamp(version@),
        decreases ls@.len() - i,
    {
        if crate::text::vec_eq(&ls[i], &sv) {
            assert(crate::text::lines(contents@)[i as int] == version_stamp(version@));
            return false;
        }
        i = i + 1;
    }
    true
}


/// One installation step of the desktop integration.
#[derive(Debug, Clone, PartialEq, Eq)]
pub enum XdgStep {
    /// Write the icon at the path (creating its directory), then refresh
    /// the icon cache of the directory given second.
    InstallIcon(String, String),
    /// Write the desktop entry text (second) at the path (first), creating
    /// its directory, then refresh the desktop database of the directory
    /// given third.
    InstallDesktopEntry(String, String, String),
}

/// What an `XdgStep` holds.
pub enum XdgStepView {
    InstallIcon(Seq<char>, Seq<char>),
    InstallDesktopEntry(Seq<char>, Seq<char>, Seq<char>),
}

impl View for XdgStep {
    type V = XdgStepView;

    open spec fn view(&self) -> XdgStepView {
        match self {
            XdgStep::InstallIcon(p, d) => XdgStepView::InstallIcon(p@, d@),
            XdgStep::InstallDesktopEntry(p, c, d) => XdgStepView::InstallDesktopEntry(p@, c@, d@),
        }
    }
}

/// The XDG data directory for a home directory and `$XDG_DATA_HOME`.
pub open spec fn data_home_of(home: Seq<char>, env: Option<Seq<char>>) -> Seq<char> {
    match env {
        Some(x) => x,
        None => path_join(home, ".local/share"@),
    }
}

/// The steps that bring the desktop integration up to date: nothing
/// without a home directory; the icon when it is missing; the desktop entry
/// when it is missing or unreadable (`None`) or its version stamp is not
/// the current one.
pub open spec fn xdg_steps(
    home: Option<Seq<char>>,
    env: Option<Seq<char>>,
    icon_exists: bool,
    entry_on_disk: Option<Seq<char>>,
    version: Seq<char>,
) -> Seq<XdgStepView> {
    match home {
        None => Seq::empty(),
        Some(h) => {
            let d = data_home_of(h, env);
            let icon: Seq<XdgStepView> = if icon_exists {
                Seq::empty()
            } else {
                seq![XdgStepView::InstallIcon(
                    path_join(path_join(d, "icons/hicolor/256x256/apps"@), "smdr.png"@),
                    path_join(d, "icons/hicolor"@),
                )]
            };
            let rewrite = match entry_on_disk {
                None => true,
                Some(c) => entry_outdated(c, version),
            };
            let entry: Seq<XdgStepView> = if rewrite {
                seq![XdgStepView::InstallDesktopEntry(
                    path_join(path_join(d, "applications"@), "smdr.desktop"@),
                    desktop_entry(version),
                    path_join(d, "applications"@),
                )]
            } else {
                Seq::empty()
            };
            icon + entry
        },
    }
}

/// Once the planned steps have been carried out (the icon present, the
/// desktop entry holding the text for `version`), planning again yields no
/// step: a second run writes nothing. This holds for a version that has no
/// newline and does not end with a carriage return.
pub proof fn second_run_plans_nothing(home: Seq<char>, env: Option<Seq<char>>, version: Seq<char>)
    requires
        forall|j: int| 0 <= j < version.len() ==> version[j] != '\n',
        version.len() > 0 ==> version.last() != '\r',
    ensures
        xdg_steps(Some(home), env, true, Some(desktop_entry(version)), version) == Seq::<
            XdgStepView,
        >::empty(),
{
    reveal_strlit("X-Version=");
    reveal_strlit("\n");
    reveal_strlit(
        "[Desktop Entry]\nType=Application\nName=smdr\nGenericName=Markdown Viewer\nComment=Simple Markdown Reader \u{2014} fast native markdown viewer with vim-style navigation\nExec=smdr %f\nIcon=smdr\nTerminal=false\nCategories=Utility;TextEditor;Viewer;\nMimeType=text/markdown;text/x-markdown;\nKeywords=markdown;md;viewer;reader;\nStartupWMClass=smdr\nStartupNotify=true\n",
    );
    let head = "[Desktop Entry]\nType=Application\nName=smdr\nGenericName=Markdown Viewer\nComment=Simple Markdown Reader \u{2014} fast native markdown viewer with vim-style navigation\nExec=smdr %f\nIcon=smdr\nTerminal=false\nCategories=Utility;TextEditor;Viewer;\nMimeType=text/markdown;text/x-markdown;\nKeywords=markdown;md;viewer;reader;\nStartupWMClass=smdr\nStartupNotify=true\n"@;
    let stamp = version_stamp(version);
    let tail = stamp + "\n"@;
    assert(desktop_entry(version) =~= head + tail);
    assert(head.last() == '\n');
    crate::text::lemma_lines_append(head, tail);
    assert forall|j: int| 0 <= j < stamp.len() implies stamp[j] != '\n' by {
        if j >= 10 {
            assert(stamp[j] == version[j - 10]);
        }
    }
    crate::text::lemma_find_char_is(tail, '\n', stamp.len() as int);
    assert(tail.take(stamp.len() as int) =~= stamp);
    assert(tail.skip((stamp.len() + 1) as int) =~= Seq::<char>::empty());
    assert(crate::text::strip_cr(stamp) == stamp) by {
        if version.len() > 0 {
            assert(stamp.last() == version.last());
        } else {
            assert(stamp.last() == '=');
        }
    }
    let rest = tail.skip((stamp.len() + 1) as int);
    assert(crate::text::lines(rest) == Seq::<Seq<char>>::empty());
    assert(crate::text::lines(tail) == seq![crate::text::strip_cr(tail.take(stamp.len() as int))]
        + crate::text::lines(rest));
    assert(crate::text::lines(tail) =~= seq![stamp]);
    let k = crate::text::lines(head).len() as int;
    assert(crate::text::lines(desktop_entry(version))[k] == version_stamp(version));
    assert(!entry_outdated(desktop_entry(version), version));
}

/// Plans the installation of the icon and the desktop entry into the XDG
/// data directory. The caller supplies what it found on disk: whether the
/// icon exists, and the desktop entry's text (`None` when it is missing or
/// cannot be read); it then carries out the steps in order, skipping a step
/// whose directory cannot be created.
pub fn ensure_xdg_assets(
    home: Option<&str>,
    xdg_data_home_env: Option<&str>,
    icon_exists: bool,
    entry_on_disk: Option<&str>,
    version: &str,
) -> (r: Vec<XdgStep>)
    ensures
        r@.map_values(|s: XdgStep| s@) == xdg_steps(
            match home {
                Some(h) => Some(h@),
                None => None,
            },
            match xdg_data_home_env {
                Some(x) => Some(x@),
                None => None,
            },
            icon_exists,
            match entry_on_disk {
                Some(c) => Some(c@),
                None => None,
            },
            version@,
        ),
{
    let mut r: Vec<XdgStep> = Vec::new();
    let h = match home {
        None => {
            assert(r@.map_values(|s: XdgStep| s@) =~= Seq::<XdgStepView>::empty());
            return r;
        },
        Some(h) => h,
    };
    let d = xdg_data_home(h, xdg_data_home_env);
    let ghost env = match xdg_data_home_env {
        Some(x) => Some(x@),
        None => None::<Seq<char>>,
    };
    assert(d@ == data_home_of(h@, env));
    if !icon_exists {
        let p = icon_path(d.as_str());
        let c = join_path(d.as_str(), "icons/hicolor");
        r.push(XdgStep::InstallIcon(p, c));
    }
    let rewrite = match entry_on_disk {
        None => true,
        Some(c) => needs_update(c, version),
    };
    if rewrite {
        let p = desktop_entry_path(d.as_str());
        let c = desktop_file_contents(version);
        let a = join_path(d.as_str(), "applications");
        r.push(XdgStep::InstallDesktopEntry(p, c, a));
    }
    assert(r@.map_values(|s: XdgStep| s@) =~= xdg_steps(
        Some(h@),
        env,
        icon_exists,
        match entry_on_disk {
            Some(c) => Some(c@),
            None => None,
        },
        version@,
    ));
    r
}

} // verus!

//! Local runtime setup: platform names, download locations, the layout of
//! the data directory, the setup status decision, and size formatting.
use vstd::prelude::*;
use crate::chars::{dec, dec_padded, push_all, string_of};
use crate::transport::{home_dir, path_join, path_join_of};

verus! {

/// Version of the portable Python build.
pub const PYTHON_VERSION: &'static str = "3.11.11";

/// Release tag of the portable Python build.
pub const PYTHON_RELEASE_TAG: &'static str = "20241206";

/// Version of FFmpeg.
pub const FFMPEG_VERSION: &'static str = "7.1";

/// Supported operating systems.
#[derive(Debug, Clone, Copy, PartialEq, Eq, Structural)]
pub enum Os {
    MacOs,
    Linux,
}

/// Supported CPU architectures.
#[derive(Debug, Clone, Copy, PartialEq, Eq, Structural)]
pub enum Arch {
    X86_64,
    Aarch64,
}

impl Os {
    pub fn as_str(&self) -> (r: &'static str)
        ensures
            *self == Os::MacOs ==> r@ == "macOS"@,
            *self == Os::Linux ==> r@ == "Linux"@,
    {
        match self {
            Os::MacOs => "macOS",
            Os::Linux => "Linux",
        }
    }
}

impl Arch {
    pub fn as_str(&self) -> (r: &'static str)
        ensures
            *self == Arch::X86_64 ==> r@ == "x86_64"@,
            *self == Arch::Aarch64 ==> r@ == "aarch64"@,
    {
        match self {
            Arch::X86_64 => "x86_64",
            Arch::Aarch64 => "aarch64",
        }
    }
}

/// A download target.
#[derive(Debug, Clone, Copy, PartialEq, Eq, Structural)]
pub struct Platform {
    pub os: Os,
    pub arch: Arch,
}

pub open spec fn os_name(os: Os) -> Seq<char> {
    match os {
        Os::MacOs => "macOS"@,
        Os::Linux => "Linux"@,
    }
}

pub open spec fn arch_name(arch: Arch) -> Seq<char> {
    match arch {
        Arch::X86_64 => "x86_64"@,
        Arch::Aarch64 => "aarch64"@,
    }
}

/// The target triple of the portable Python builds.
pub open spec fn python_triple(p: Platform) -> Seq<char> {
    match (p.os, p.arch) {
        (Os::MacOs, Arch::Aarch64) => "aarch64-apple-darwin"@,
        (Os::MacOs, Arch::X86_64) => "x86_64-apple-darwin"@,
        (Os::Linux, Arch::X86_64) => "x86_64-unknown-linux-gnu"@,
        (Os::Linux, Arch::Aarch64) => "aarch64-unknown-linux-gnu"@,
    }
}

impl Platform {
    /// The target triple of the portable Python builds.
    pub fn python_platform_string(&self) -> (r: &'static str)
        ensures
            r@ == python_triple(*self),
    {
        match (self.os, self.arch) {
            (Os::MacOs, Arch::Aarch64) => "aarch64-apple-darwin",
            (Os::MacOs, Arch::X86_64) => "x86_64-apple-darwin",
            (Os::Linux, Arch::X86_64) => "x86_64-unknown-linux-gnu",
            (Os::Linux, Arch::Aarch64) => "aarch64-unknown-linux-gnu",
        }
    }

    /// `"<os>-<arch>"`, as recorded with installed versions.
    pub fn to_version_string(&self) -> (r: String)
        ensures
            r@ == os_name(self.os) + seq!['-'] + arch_name(self.arch),
    {
        let mut r = self.os.as_str().to_owned();
        r.push('-');
        push_all(&mut r, self.arch.as_str());
        r
    }

    /// `"<os> (<arch>)"`, for display.
    pub fn display_string(&self) -> (r: String)
        ensures
            r@ == os_name(self.os) + seq![' ', '('] + arch_name(self.arch) + seq![')'],
    {
        let mut r = self.os.as_str().to_owned();
        r.push(' ');
        r.push('(');
        push_all(&mut r, self.arch.as_str());
        r.push(')');
        r
    }
}

/// Where the FFmpeg build for a platform is downloaded from.
pub fn get_ffmpeg_download_url(platform: &Platform) -> (r: &'static str)
    ensures
        platform.os == Os::MacOs && platform.arch == Arch::Aarch64 ==> r@
            == "https://ffmpeg.martin-riedl.de/redirect/latest/macos/arm64/release/ffmpeg.zip"@,
        platform.os == Os::MacOs && platform.arch == Arch::X86_64 ==> r@
            == "https://ffmpeg.martin-riedl.de/redirect/latest/macos/amd64/release/ffmpeg.zip"@,
        platform.os == Os::Linux && platform.arch == Arch::X86_64 ==> r@
            == "https://johnvansickle.com/ffmpeg/releases/ffmpeg-release-amd64-static.tar.xz"@,
        platform.os == Os::Linux && platform.arch == Arch::Aarch64 ==> r@
            == "https://johnvansickle.com/ffmpeg/releases/ffmpeg-release-arm64-static.tar.xz"@,
{
    match (platform.os, platform.arch) {
        (Os::MacOs, Arch::Aarch64) => {
            "https://ffmpeg.martin-riedl.de/redirect/latest/macos/arm64/release/ffmpeg.zip"
        },
        (Os::MacOs, Arch::X86_64) => {
            "https://ffmpeg.martin-riedl.de/redirect/latest/macos/amd64/release/ffmpeg.zip"
        },
        (Os::Linux, Arch::X86_64) => {
            "https://johnvansickle.com/ffmpeg/releases/ffmpeg-release-amd64-static.tar.xz"
        },
        (Os::Linux, Arch::Aarch64) => {
            "https://johnvansickle.com/ffmpeg/releases/ffmpeg-release-arm64-static.tar.xz"
        },
    }
}

/// Where FFprobe is downloaded from; Linux builds bundle it with FFmpeg.
pub fn get_ffprobe_download_url(platform: &Platform) -> (r: Option<&'static str>)
    ensures
        platform.os == Os::Linux <==> r is None,
        platform.os == Os::MacOs && platform.arch == Arch::Aarch64 ==> (r matches Some(u) && u@
            == "https://ffmpeg.martin-riedl.de/redirect/latest/macos/arm64/release/ffprobe.zip"@),
        platform.os == Os::MacOs && platform.arch == Arch::X86_64 ==> (r matches Some(u) && u@
            == "https://ffmpeg.martin-riedl.de/redirect/latest/macos/amd64/release/ffprobe.zip"@),
{
    match (platform.os, platform.arch) {
        (Os::MacOs, Arch::Aarch64) => {
            Some("https://ffmpeg.martin-riedl.de/redirect/latest/macos/arm64/release/ffprobe.zip")
        },
        (Os::MacOs, Arch::X86_64) => {
            Some("https://ffmpeg.martin-riedl.de/redirect/latest/macos/amd64/release/ffprobe.zip")
        },
        (Os::Linux, _) => None,
    }
}

/// Where the portable Python build for a platform is downloaded from.
pub fn get_python_download_url(platform: &Platform) -> (r: String)
    ensures
        r@ == "https://github.com/astral-sh/python-build-standalone/releases/download/"@
            + PYTHON_RELEASE_TAG@ + "/cpython-"@ + PYTHON_VERSION@ + seq!['+'] + PYTHON_RELEASE_TAG@
            + seq!['-'] + python_triple(*platform) + "-install_only.tar.gz"@,
{
    let mut r = "https://github.com/astral-sh/python-build-standalone/releases/download/".to_owned();
    push_all(&mut r, PYTHON_RELEASE_TAG);
    push_all(&mut r, "/cpython-");
    push_all(&mut r, PYTHON_VERSION);
    r.push('+');
    push_all(&mut r, PYTHON_RELEASE_TAG);
    r.push('-');
    push_all(&mut r, platform.python_platform_string());
    push_all(&mut r, "-install_only.tar.gz");
    r
}

/// What setup still has to do.
#[derive(Debug, Clone, Copy, PartialEq, Eq, Structural)]
pub enum BootstrapStatus {
    /// Everything is ready.
    Ready,
    /// Nothing usable is installed yet.
    NeedsFullBootstrap,
    /// Only the Python packages are missing.
    NeedsPackages,
    /// The installation belongs to another platform.
    PlatformChanged,
}

/// What is known of the local installation.
#[derive(Debug, Clone, Copy)]
pub struct InstallFacts {
    /// Whether a platform was recorded and differs from the current one.
    pub platform_changed: bool,
    pub python_installed: bool,
    pub ffmpeg_installed: bool,
    pub venv_ready: bool,
    pub chatterbox_installed: bool,
}

/// The setup status: a platform change first, then a missing runtime, then
/// missing packages.
pub fn check_status(facts: &InstallFacts) -> (r: BootstrapStatus)
    ensures
        r == if facts.platform_changed {
            BootstrapStatus::PlatformChanged
        } else if !facts.python_installed || !facts.ffmpeg_installed {
            BootstrapStatus::NeedsFullBootstrap
        } else if !facts.venv_ready || !facts.chatterbox_installed {
            BootstrapStatus::NeedsPackages
        } else {
            BootstrapStatus::Ready
        },
{
    if facts.platform_changed {
        BootstrapStatus::PlatformChanged
    } else if !facts.python_installed || !facts.ffmpeg_installed {
        BootstrapStatus::NeedsFullBootstrap
    } else if !facts.venv_ready || !facts.chatterbox_installed {
        BootstrapStatus::NeedsPackages
    } else {
        BootstrapStatus::Ready
    }
}

/// Whether setup has anything left to do.
pub fn check_setup_needed(facts: &InstallFacts) -> (r: bool)
    ensures
        r == (check_status_spec(*facts) != BootstrapStatus::Ready),
{
    let s = check_status(facts);
    !(s == BootstrapStatus::Ready)
}

pub open spec fn check_status_spec(facts: InstallFacts) -> BootstrapStatus {
    if facts.platform_changed {
        BootstrapStatus::PlatformChanged
    } else if !facts.python_installed || !facts.ffmpeg_installed {
        BootstrapStatus::NeedsFullBootstrap
    } else if !facts.venv_ready || !facts.chatterbox_installed {
        BootstrapStatus::NeedsPackages
    } else {
        BootstrapStatus::Ready
    }
}

/// Sizes freed by a cleanup.
#[derive(Debug, Clone, Copy, Default)]
pub struct CleanupStats {
    pub gena_removed: bool,
    pub gena_size: u64,
    pub models_removed: bool,
    pub models_size: u64,
}

impl CleanupStats {
    pub fn total_size(&self) -> (r: u64)
        requires
            self.gena_size + self.models_size <= u64::MAX,
        ensures
            r == self.gena_size + self.models_size,
    {
        self.gena_size + self.models_size
    }
}

// ----- data directory layout -----

/// Relies on `dirs::data_local_dir`: the user's local data directory, if known.
#[verifier::external_body]
fn data_local_dir() -> (r: Option<String>) {
    dirs::data_local_dir().map(|p| p.to_string_lossy().into_owned())
}

/// Why a local directory cannot be named.
#[derive(Debug, Clone, Copy, PartialEq, Eq, Structural)]
pub enum DataDirError {
    /// Neither a local data directory nor a home directory is known.
    NoDataDirectory,
}

/// `gen-audio` under base directory `b`.
pub open spec fn data_dir_of(b: Seq<char>) -> Seq<char> {
    path_join_of(b, "gen-audio"@)
}

pub open spec fn bootstrap_dir_of(b: Seq<char>) -> Seq<char> {
    path_join_of(data_dir_of(b), "bootstrap"@)
}

pub open spec fn python_dir_of(b: Seq<char>) -> Seq<char> {
    path_join_of(bootstrap_dir_of(b), "python"@)
}

pub open spec fn ffmpeg_dir_of(b: Seq<char>) -> Seq<char> {
    path_join_of(bootstrap_dir_of(b), "ffmpeg"@)
}

pub open spec fn venv_dir_of(b: Seq<char>) -> Seq<char> {
    path_join_of(data_dir_of(b), "venv"@)
}

pub open spec fn venv_bin_of(b: Seq<char>) -> Seq<char> {
    path_join_of(venv_dir_of(b), "bin"@)
}

/// The data directory given the local data directory and the home
/// directory, where known: `gen-audio` under the first that is known.
pub fn data_dir_in(local: Option<&str>, home: Option<&str>) -> (r: Result<String, DataDirError>)
    ensures
        local matches Some(l) ==> (r matches Ok(p) && p@ == data_dir_of(l@)),
        (local is None && home is Some) ==> (r matches Ok(p) && p@ == data_dir_of(home->0@)),
        local is None && home is None ==> r == Err::<String, DataDirError>(
            DataDirError::NoDataDirectory,
        ),
{
    let base = match local {
        Some(d) => d,
        None => match home {
            Some(h) => h,
            None => {
                return Err(DataDirError::NoDataDirectory);
            },
        },
    };
    Ok(path_join(base, "gen-audio"))
}

/// The data directory: `gen-audio` under the local data directory, or under
/// the home directory when that is not known. Which of them the system
/// knows depends on the environment.
pub fn get_data_dir() -> (r: Result<String, DataDirError>)
    ensures
        r matches Ok(p) ==> exists|b: Seq<char>| p@ == data_dir_of(b),
{
    let local = data_local_dir();
    let home = home_dir();
    let l = match &local {
        Some(d) => Some(d.as_str()),
        None => None,
    };
    let h = match &home {
        Some(d) => Some(d.as_str()),
        None => None,
    };
    data_dir_in(l, h)
}

/// Where the portable runtimes are installed.
pub fn get_bootstrap_dir() -> (r: Result<String, DataDirError>)
    ensures
        r matches Ok(p) ==> exists|b: Seq<char>| p@ == bootstrap_dir_of(b),
{
    let d = get_data_dir()?;
    let r = path_join(d.as_str(), "bootstrap");
    proof {
        let b = choose|b: Seq<char>| d@ == data_dir_of(b);
        assert(r@ == bootstrap_dir_of(b));
    }
    Ok(r)
}

/// Where the portable Python is installed.
pub fn get_python_dir() -> (r: Result<String, DataDirError>)
    ensures
        r matches Ok(p) ==> exists|b: Seq<char>| p@ == python_dir_of(b),
{
    let d = get_bootstrap_dir()?;
    let r = path_join(d.as_str(), "python");
    proof {
        let b = choose|b: Seq<char>| d@ == bootstrap_dir_of(b);
        assert(r@ == python_dir_of(b));
    }
    Ok(r)
}

/// Where FFmpeg is installed.
pub fn get_ffmpeg_dir() -> (r: Result<String, DataDirError>)
    ensures
        r matches Ok(p) ==> exists|b: Seq<char>| p@ == ffmpeg_dir_of(b),
{
    let d = get_bootstrap_dir()?;
    let r = path_join(d.as_str(), "ffmpeg");
    proof {
        let b = choose|b: Seq<char>| d@ == bootstrap_dir_of(b);
        assert(r@ == ffmpeg_dir_of(b));
    }
    Ok(r)
}

/// The virtual environment.
pub fn get_venv_dir() -> (r: Result<String, DataDirError>)
    ensures
        r matches Ok(p) ==> exists|b: Seq<char>| p@ == venv_dir_of(b),
{
    let d = get_data_dir()?;
    let r = path_join(d.as_str(), "venv");
    proof {
        let b = choose|b: Seq<char>| d@ == data_dir_of(b);
        assert(r@ == venv_dir_of(b));
    }
    Ok(r)
}

/// The bootstrapped FFmpeg executable.
pub fn get_ffmpeg_executable() -> (r: Result<String, DataDirError>)
    ensures
        r matches Ok(p) ==> exists|b: Seq<char>| p@ == path_join_of(ffmpeg_dir_of(b), "ffmpeg"@),
{
    let d = get_ffmpeg_dir()?;
    let r = path_join(d.as_str(), "ffmpeg");
    proof {
        let b = choose|b: Seq<char>| d@ == ffmpeg_dir_of(b);
        assert(r@ == path_join_of(ffmpeg_dir_of(b), "ffmpeg"@));
    }
    Ok(r)
}

/// The bootstrapped FFprobe executable.
pub fn get_ffprobe_executable() -> (r: Result<String, DataDirError>)
    ensures
        r matches Ok(p) ==> exists|b: Seq<char>| p@ == path_join_of(ffmpeg_dir_of(b), "ffprobe"@),
{
    let d = get_ffmpeg_dir()?;
    let r = path_join(d.as_str(), "ffprobe");
    proof {
        let b = choose|b: Seq<char>| d@ == ffmpeg_dir_of(b);
        assert(r@ == path_join_of(ffmpeg_dir_of(b), "ffprobe"@));
    }
    Ok(r)
}

/// The executables of the virtual environment.
pub fn get_venv_bin() -> (r: Result<String, DataDirError>)
    ensures
        r matches Ok(p) ==> exists|b: Seq<char>| p@ == venv_bin_of(b),
{
    let d = get_venv_dir()?;
    let r = path_join(d.as_str(), "bin");
    proof {
        let b = choose|b: Seq<char>| d@ == venv_dir_of(b);
        assert(r@ == venv_bin_of(b));
    }
    Ok(r)
}

/// The interpreter of the virtual environment.
pub fn get_venv_python() -> (r: Result<String, DataDirError>)
    ensures
        r matches Ok(p) ==> exists|b: Seq<char>| p@ == path_join_of(venv_bin_of(b), "python"@),
{
    let d = get_venv_bin()?;
    let r = path_join(d.as_str(), "python");
    proof {
        let b = choose|b: Seq<char>| d@ == venv_bin_of(b);
        assert(r@ == path_join_of(venv_bin_of(b), "python"@));
    }
    Ok(r)
}

/// The package installer of the virtual environment.
pub fn get_venv_pip() -> (r: Result<String, DataDirError>)
    ensures
        r matches Ok(p) ==> exists|b: Seq<char>| p@ == path_join_of(venv_bin_of(b), "pip"@),
{
    let d = get_venv_bin()?;
    let r = path_join(d.as_str(), "pip");
    proof {
        let b = choose|b: Seq<char>| d@ == venv_bin_of(b);
        assert(r@ == path_join_of(venv_bin_of(b), "pip"@));
    }
    Ok(r)
}

/// The bootstrapped Python interpreter: `python/bin/python3` in the Python directory.
pub fn get_python_executable() -> (r: Result<String, DataDirError>)
    ensures
        r matches Ok(p) ==> exists|b: Seq<char>|
            p@ == path_join_of(
                path_join_of(path_join_of(python_dir_of(b), "python"@), "bin"@),
                "python3"@,
            ),
{
    let d = get_python_dir()?;
    let a = path_join(d.as_str(), "python");
    let c = path_join(a.as_str(), "bin");
    let r = path_join(c.as_str(), "python3");
    proof {
        let b = choose|b: Seq<char>| d@ == python_dir_of(b);
        assert(r@ == path_join_of(
            path_join_of(path_join_of(python_dir_of(b), "python"@), "bin"@),
            "python3"@,
        ));
    }
    Ok(r)
}

/// The interpreter used for synthesis.
pub fn get_python_path() -> (r: Result<String, DataDirError>)
    ensures
        r matches Ok(p) ==> exists|b: Seq<char>| p@ == path_join_of(venv_bin_of(b), "python"@),
{
    get_venv_python()
}

// ----- worker-side layout -----

/// `.gen-audio/worker` under base directory `h`.
pub open spec fn worker_dir_of(h: Seq<char>) -> Seq<char> {
    path_join_of(path_join_of(h, ".gen-audio"@), "worker"@)
}

/// The worker's own data directory: `.gen-audio/worker` under the home
/// directory, or under the current directory when that is not known.
fn worker_data_dir() -> (r: String)
    ensures
        exists|h: Seq<char>| r@ == worker_dir_of(h),
{
    let home = match home_dir() {
        Some(h) => h,
        None => ".".to_owned(),
    };
    let a = path_join(home.as_str(), ".gen-audio");
    let r = path_join(a.as_str(), "worker");
    assert(r@ == worker_dir_of(home@));
    r
}

/// Directory of uploaded voice assets.
pub fn voices_dir() -> (r: String)
    ensures
        exists|h: Seq<char>| r@ == path_join_of(worker_dir_of(h), "voices"@),
{
    let d = worker_data_dir();
    let r = path_join(d.as_str(), "voices");
    proof {
        let h = choose|h: Seq<char>| d@ == worker_dir_of(h);
        assert(r@ == path_join_of(worker_dir_of(h), "voices"@));
    }
    r
}

/// Directory of produced audio.
pub fn output_dir() -> (r: String)
    ensures
        exists|h: Seq<char>| r@ == path_join_of(worker_dir_of(h), "output"@),
{
    let d = worker_data_dir();
    let r = path_join(d.as_str(), "output");
    proof {
        let h = choose|h: Seq<char>| d@ == worker_dir_of(h);
        assert(r@ == path_join_of(worker_dir_of(h), "output"@));
    }
    r
}

/// The file of the voice asset named by `hash`.
pub fn get_voice_path(hash: &str) -> (r: String)
    ensures
        exists|h: Seq<char>|
            r@ == path_join_of(path_join_of(worker_dir_of(h), "voices"@), hash@ + ".wav"@),
{
    let d = voices_dir();
    let mut f = hash.to_owned();
    push_all(&mut f, ".wav");
    let r = path_join(d.as_str(), f.as_str());
    proof {
        let h = choose|h: Seq<char>| d@ == path_join_of(worker_dir_of(h), "voices"@);
        assert(r@ == path_join_of(path_join_of(worker_dir_of(h), "voices"@), hash@ + ".wav"@));
    }
    r
}

/// The audio file a job produces.
pub fn get_output_path(job_id: &str) -> (r: String)
    ensures
        exists|h: Seq<char>|
            r@ == path_join_of(path_join_of(worker_dir_of(h), "output"@), job_id@ + ".wav"@),
{
    let d = output_dir();
    let mut f = job_id.to_owned();
    push_all(&mut f, ".wav");
    let r = path_join(d.as_str(), f.as_str());
    proof {
        let h = choose|h: Seq<char>| d@ == path_join_of(worker_dir_of(h), "output"@);
        assert(r@ == path_join_of(path_join_of(worker_dir_of(h), "output"@), job_id@ + ".wav"@));
    }
    r
}

// ----- sizes -----

/// `n` in tenths of `unit`, rounded to the nearest tenth, ties to even.
pub open spec fn tenths(n: nat, unit: nat) -> nat
    recommends
        unit > 0,
{
    let q = (n * 10) / unit;
    let rem = (n * 10) % unit;
    if 2 * rem > unit || (2 * rem == unit && q % 2 == 1) {
        q + 1
    } else {
        q
    }
}

/// `"<whole>.<tenth> <suffix>"` for a count in tenths.
pub open spec fn one_decimal(t: nat, suffix: Seq<char>) -> Seq<char> {
    dec(t / 10) + seq!['.'] + dec(t % 10) + seq![' '] + suffix
}

/// Human-readable size: bytes below a KiB, else KB, MB or GB with one decimal.
pub open spec fn format_bytes_spec(b: nat) -> Seq<char> {
    if b >= 1073741824 {
        one_decimal(tenths(b, 1073741824), "GB"@)
    } else if b >= 1048576 {
        one_decimal(tenths(b, 1048576), "MB"@)
    } else if b >= 1024 {
        one_decimal(tenths(b, 1024), "KB"@)
    } else {
        dec(b) + seq![' ', 'B']
    }
}

fn push_digits(s: &mut String, n: u64)
    ensures
        final(s)@ == old(s)@ + dec(n as nat),
{
    let d = dec_padded(n, 0);
    let t = string_of(&d);
    push_all(s, t.as_str());
}

fn tenths_exec(n: u64, unit: u64) -> (r: u64)
    requires
        unit >= 1024,
    ensures
        r == tenths(n as nat, unit as nat),
{
    let big = (n as u128) * 10;
    let q = big / (unit as u128);
    let rem = big % (unit as u128);
    assert(q < u64::MAX) by (nonlinear_arith)
        requires
            q == big / (unit as u128),
            big == n * 10,
            unit >= 1024,
            n <= u64::MAX,
    ;
    let q64 = q as u64;
    if 2 * rem > unit as u128 || (2 * rem == unit as u128 && q64 % 2 == 1) {
        q64 + 1
    } else {
        q64
    }
}

/// A byte count for display, such as `"512 B"` or `"1.5 MB"`.
pub fn format_bytes(bytes: u64) -> (r: String)
    ensures
        r@ == format_bytes_spec(bytes as nat),
{
    proof {
        reveal_strlit("GB");
        reveal_strlit("MB");
        reveal_strlit("KB");
    }
    let (unit, suffix): (u64, &str) = if bytes >= 1073741824 {
        (1073741824, "GB")
    } else if bytes >= 1048576 {
        (1048576, "MB")
    } else if bytes >= 1024 {
        (1024, "KB")
    } else {
        let mut r = String::new();
        push_digits(&mut r, bytes);
        r.push(' ');
        r.push('B');
        assert(r@ =~= format_bytes_spec(bytes as nat));
        return r;
    };
    let t = tenths_exec(bytes, unit);
    let mut r = String::new();
    push_digits(&mut r, t / 10);
    r.push('.');
    push_digits(&mut r, t % 10);
    r.push(' ');
    push_all(&mut r, suffix);
    assert(r@ =~= format_bytes_spec(bytes as nat));
    r
}

// ----- installed versions -----

/// What has been installed, and for which platform.
#[derive(Debug, Clone)]
pub struct InstalledVersions {
    pub python_version: Option<String>,
    pub python_release_tag: Option<String>,
    pub ffmpeg_version: Option<String>,
    /// Platform string when installed, such as `macOS-aarch64`.
    pub platform: Option<String>,
    /// Time of the last installation, milliseconds since the Unix epoch.
    pub installed_at_ms: Option<i64>,
}

impl Default for InstalledVersions {
    fn default() -> (r: Self)
        ensures
            r.python_version is None,
            r.python_release_tag is None,
            r.ffmpeg_version is None,
            r.platform is None,
            r.installed_at_ms is None,
    {
        InstalledVersions {
            python_version: None,
            python_release_tag: None,
            ffmpeg_version: None,
            platform: None,
            installed_at_ms: None,
        }
    }
}

fn opt_equals(o: &Option<String>, s: &str) -> (r: bool)
    ensures
        r == (o matches Some(v) && v@ == s@),
{
    match o {
        Some(v) => crate::chars::str_eq(v.as_str(), s),
        None => false,
    }
}

impl InstalledVersions {
    /// Whether the installed Python is the pinned version and release.
    pub fn is_python_current(&self) -> (r: bool)
        ensures
            r == ((self.python_version matches Some(v) && v@ == PYTHON_VERSION@) && (
            self.python_release_tag matches Some(t) && t@ == PYTHON_RELEASE_TAG@)),
    {
        opt_equals(&self.python_version, PYTHON_VERSION) && opt_equals(
            &self.python_release_tag,
            PYTHON_RELEASE_TAG,
        )
    }

    pub fn has_ffmpeg(&self) -> (r: bool)
        ensures
            r == self.ffmpeg_version is Some,
    {
        self.ffmpeg_version.is_some()
    }

    /// Whether the installation was made for `current_platform`.
    pub fn platform_matches(&self, current_platform: &str) -> (r: bool)
        ensures
            r == (self.platform matches Some(p) && p@ == current_platform@),
    {
        opt_equals(&self.platform, current_platform)
    }

    pub fn set_python(&mut self, version: &str, release_tag: &str)
        ensures
            final(self).python_version matches Some(v) && v@ == version@,
            final(self).python_release_tag matches Some(t) && t@ == release_tag@,
            final(self).installed_at_ms is Some,
            final(self).ffmpeg_version == old(self).ffmpeg_version,
            final(self).platform == old(self).platform,
    {
        self.python_version = Some(version.to_owned());
        self.python_release_tag = Some(release_tag.to_owned());
        self.installed_at_ms = Some(crate::protocol::now_millis());
    }

    pub fn set_ffmpeg(&mut self, version: &str)
        ensures
            final(self).ffmpeg_version matches Some(v) && v@ == version@,
            final(self).installed_at_ms is Some,
            final(self).python_version == old(self).python_version,
            final(self).python_release_tag == old(self).python_release_tag,
            final(self).platform == old(self).platform,
    {
        self.ffmpeg_version = Some(version.to_owned());
        self.installed_at_ms = Some(crate::protocol::now_millis());
    }

    pub fn set_platform(&mut self, platform: &str)
        ensures
            final(self).platform matches Some(p) && p@ == platform@,
            final(self).python_version == old(self).python_version,
            final(self).python_release_tag == old(self).python_release_tag,
            final(self).ffmpeg_version == old(self).ffmpeg_version,
            final(self).installed_at_ms == old(self).installed_at_ms,
    {
        self.platform = Some(platform.to_owned());
    }
}

} // verus!

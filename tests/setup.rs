use gen_audiobook::bootstrap::{data_dir_in, DataDirError};
use gen_audiobook::bootstrap::{
    check_setup_needed, check_status, format_bytes, get_ffmpeg_download_url,
    get_ffprobe_download_url, get_output_path, get_python_download_url, get_python_executable,
    get_python_path, get_venv_python, get_voice_path, Arch, BootstrapStatus, InstallFacts, Os,
    Platform, PYTHON_VERSION,
};

#[test]
fn test_format_bytes() {
    assert_eq!(format_bytes(512), "512 B");
    assert_eq!(format_bytes(1024), "1.0 KB");
    assert_eq!(format_bytes(1024 * 1024), "1.0 MB");
    assert_eq!(format_bytes(1024 * 1024 * 1024), "1.0 GB");
    assert_eq!(format_bytes(1536 * 1024), "1.5 MB");
}

#[test]
fn format_bytes_rounding() {
    assert_eq!(format_bytes(0), "0 B");
    assert_eq!(format_bytes(1023), "1023 B");
    assert_eq!(format_bytes(1280), "1.2 KB");
    assert_eq!(format_bytes(1331), "1.3 KB");
    assert_eq!(format_bytes(u64::MAX), format!("{:.1} GB", u64::MAX as f64 / 1073741824.0));
}

#[test]
fn test_ffmpeg_urls() {
    let macos_arm = Platform { os: Os::MacOs, arch: Arch::Aarch64 };
    assert!(get_ffmpeg_download_url(&macos_arm).contains("arm64"));
    let linux_x64 = Platform { os: Os::Linux, arch: Arch::X86_64 };
    assert!(get_ffmpeg_download_url(&linux_x64).contains("amd64"));
}

#[test]
fn test_ffprobe_urls() {
    let macos = Platform { os: Os::MacOs, arch: Arch::Aarch64 };
    assert!(get_ffprobe_download_url(&macos).is_some());
    let linux = Platform { os: Os::Linux, arch: Arch::X86_64 };
    assert!(get_ffprobe_download_url(&linux).is_none());
}

#[test]
fn test_python_platform_strings() {
    let macos_arm = Platform { os: Os::MacOs, arch: Arch::Aarch64 };
    assert_eq!(macos_arm.python_platform_string(), "aarch64-apple-darwin");
    let linux_x64 = Platform { os: Os::Linux, arch: Arch::X86_64 };
    assert_eq!(linux_x64.python_platform_string(), "x86_64-unknown-linux-gnu");
    assert_eq!(linux_x64.to_version_string(), "Linux-x86_64");
}

#[test]
fn test_python_download_url() {
    let platform = Platform { os: Os::MacOs, arch: Arch::Aarch64 };
    let url = get_python_download_url(&platform);
    assert!(url.contains("aarch64-apple-darwin"));
    assert!(url.contains("install_only"));
    assert!(url.contains(PYTHON_VERSION));
}

#[test]
fn test_python_paths() {
    let python_exec = get_python_executable().unwrap();
    assert!(python_exec.ends_with("python3"));
    let venv_python = get_venv_python().unwrap();
    assert!(venv_python.ends_with("python"));
}

#[test]
fn test_get_python_path() {
    let path = get_python_path().unwrap();
    assert!(path.ends_with("python"));
}

#[test]
fn test_paths() {
    let voice_path = get_voice_path("abc123");
    assert!(voice_path.contains("voices"));
    assert!(voice_path.ends_with("abc123.wav"));
    let output_path = get_output_path("job_001");
    assert!(output_path.contains("output"));
    assert!(output_path.ends_with("job_001.wav"));
}

#[test]
fn setup_status_order() {
    let all = InstallFacts {
        platform_changed: false,
        python_installed: true,
        ffmpeg_installed: true,
        venv_ready: true,
        chatterbox_installed: true,
    };
    assert_eq!(check_status(&all), BootstrapStatus::Ready);
    assert!(!check_setup_needed(&all));
    let pkgs = InstallFacts { chatterbox_installed: false, ..all };
    assert_eq!(check_status(&pkgs), BootstrapStatus::NeedsPackages);
    let full = InstallFacts { ffmpeg_installed: false, ..pkgs };
    assert_eq!(check_status(&full), BootstrapStatus::NeedsFullBootstrap);
    let moved = InstallFacts { platform_changed: true, ..full };
    assert_eq!(check_status(&moved), BootstrapStatus::PlatformChanged);
}

#[test]
fn test_default_versions() {
    let versions = gen_audiobook::bootstrap::InstalledVersions::default();
    assert!(!versions.is_python_current());
    assert!(!versions.has_ffmpeg());
}

#[test]
fn test_python_current() {
    let mut versions = gen_audiobook::bootstrap::InstalledVersions::default();
    versions.set_python(PYTHON_VERSION, gen_audiobook::bootstrap::PYTHON_RELEASE_TAG);
    assert!(versions.is_python_current());
}

#[test]
fn test_platform_matches() {
    let mut versions = gen_audiobook::bootstrap::InstalledVersions::default();
    versions.set_platform("macOS-aarch64");
    assert!(versions.platform_matches("macOS-aarch64"));
    assert!(!versions.platform_matches("Linux-x86_64"));
}

#[test]
fn local_worker_status() {
    let s = gen_audiobook::protocol::get_worker_status();
    assert!(!s.ready);
    assert_eq!(s.device, "n/a");
}

#[test]
fn data_dir_prefers_local_then_home() {
    use_data_dir();
}

fn use_data_dir() {
    assert_eq!(data_dir_in(Some("/l"), Some("/h")), Ok("/l/gen-audio".to_string()));
    assert_eq!(data_dir_in(None, Some("/h")), Ok("/h/gen-audio".to_string()));
    assert_eq!(data_dir_in(None, None), Err(DataDirError::NoDataDirectory));
}

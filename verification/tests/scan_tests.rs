use prometheus_core::delete::DeletionReport;
use prometheus_core::platform::Platform;
use prometheus_core::scan::{
    get_browser_paths, get_large_file_dirs, get_package_manager_paths, get_system_junk_paths,
    scan_browser_bloat, scan_large_files, scan_package_managers, scan_system_junk,
    scan_user_hoarding, FileEntry,
};
use prometheus_core::tree::JunkCategory;

fn p(s: &str) -> Vec<char> {
    s.chars().collect()
}

fn file(path: &str, size: u64) -> FileEntry {
    FileEntry { path: p(path), size, is_file: true, modified: 0 }
}

#[test]
fn system_junk_tables_have_four_roots_each() {
    let home = p("/home/u");
    for plat in [Platform::MacOs, Platform::Windows, Platform::Linux] {
        assert_eq!(get_system_junk_paths(&home, plat).len(), 4);
    }
}

#[test]
fn linux_cache_root_is_joined_with_slash() {
    let roots = get_system_junk_paths(&p("/home/u"), Platform::Linux);
    assert_eq!(roots[0].0, p("/home/u/.cache"));
    assert_eq!(roots[0].1, p("Cache"));
}

#[test]
fn windows_roots_use_backslashes() {
    let roots = get_system_junk_paths(&p("C:\\Users\\u"), Platform::Windows);
    assert_eq!(roots[0].0, p("C:\\Users\\u\\AppData\\Local\\Temp"));
    assert_eq!(roots[1].0, p("C:\\Windows\\Temp"));
}

#[test]
fn system_junk_keeps_files_above_threshold() {
    let home = p("/home/u");
    let listings = vec![
        vec![
            file("/home/u/.cache/fake", 2_000_000),
            file("/home/u/.cache/tiny", 50_000),
            FileEntry { path: p("/home/u/.cache/dir"), size: 9_000_000, is_file: false, modified: 0 },
        ],
        Vec::new(),
        Vec::new(),
        Vec::new(),
    ];
    let node = scan_system_junk(&home, Platform::Linux, &listings);
    assert_eq!(node.category, JunkCategory::SystemJunk);
    assert_eq!(node.items.len(), 1);
    assert_eq!(node.items[0].path, p("/home/u/.cache/fake"));
    assert_eq!(node.items[0].size, 2_000_000);
    assert_eq!(node.total_size, 2_000_000);
}

#[test]
fn cache_scan_includes_fake_and_guard_refuses_ssh_key() {
    // End to end: a 2MB file under ~/.cache is reported; a deletion
    // request against ~/.ssh/id_rsa is refused, nothing deleted.
    let home = p("/home/u");
    let listings = vec![
        vec![file("/home/u/.cache/fake", 2_000_000)],
        Vec::new(),
        Vec::new(),
        Vec::new(),
    ];
    let node = scan_system_junk(&home, Platform::Linux, &listings);
    assert_eq!(node.items.len(), 1);
    assert_eq!(node.items[0].path, p("/home/u/.cache/fake"));

    let mut report = DeletionReport::new();
    let attempt = report.check_path(&p("/home/u/.ssh/id_rsa"), &home, Platform::Linux);
    assert!(!attempt);
    assert_eq!(report.protected, 1);
    assert_eq!(report.deleted, 0);
}

#[test]
fn system_junk_sorts_descending_and_caps_at_hundred() {
    let home = p("/home/u");
    let mut entries = Vec::new();
    for i in 0..150u64 {
        entries.push(file(&format!("/home/u/.cache/f{}", i), 200_000 + i));
    }
    let listings = vec![entries, Vec::new(), Vec::new(), Vec::new()];
    let node = scan_system_junk(&home, Platform::Linux, &listings);
    assert_eq!(node.items.len(), 100);
    assert_eq!(node.items[0].size, 200_149);
    assert_eq!(node.items[99].size, 200_050);
    for w in node.items.windows(2) {
        assert!(w[0].size >= w[1].size);
    }
    let expected: u64 = (200_050..=200_149).sum();
    assert_eq!(node.total_size, expected);
}

#[test]
fn items_of_equal_size_are_all_retained() {
    let home = p("/home/u");
    let listings = vec![
        vec![
            file("/home/u/.cache/twin-a", 300_000),
            file("/home/u/.cache/twin-b", 300_000),
            file("/home/u/.cache/big", 400_000),
        ],
        Vec::new(),
        Vec::new(),
        Vec::new(),
    ];
    let node = scan_system_junk(&home, Platform::Linux, &listings);
    assert_eq!(node.items.len(), 3);
    assert_eq!(node.items[0].path, p("/home/u/.cache/big"));
    assert_eq!(node.items[1].size, 300_000);
    assert_eq!(node.items[2].size, 300_000);
    let paths: Vec<Vec<char>> = node.items.iter().map(|i| i.path.clone()).collect();
    assert!(paths.contains(&p("/home/u/.cache/twin-a")));
    assert!(paths.contains(&p("/home/u/.cache/twin-b")));
    assert_eq!(node.total_size, 1_000_000);
}

#[test]
fn protected_system_junk_root_is_skipped_whole() {
    // On Linux the trash root lies under .local/share, which the guard
    // refuses, so its listing contributes nothing.
    let home = p("/home/u");
    let listings = vec![
        Vec::new(),
        vec![file("/home/u/.local/share/Trash/big", 5_000_000)],
        Vec::new(),
        Vec::new(),
    ];
    let node = scan_system_junk(&home, Platform::Linux, &listings);
    assert_eq!(node.items.len(), 0);
}

#[test]
fn browser_scan_keeps_measured_roots_above_threshold() {
    let home = p("/home/u");
    let roots = get_browser_paths(&home, Platform::Linux);
    assert_eq!(roots.len(), 4);
    let sizes = vec![Some(80_000_000u64), Some(4_000_000), None, Some(6_000_000)];
    let node = scan_browser_bloat(&home, Platform::Linux, &sizes);
    assert_eq!(node.category, JunkCategory::BrowserBloat);
    assert_eq!(node.items.len(), 2);
    assert_eq!(node.items[0].path, p("/home/u/.cache/google-chrome"));
    assert_eq!(node.items[0].size, 80_000_000);
    assert_eq!(node.items[0].junk_type, p("Chrome Cache"));
    assert_eq!(node.items[1].path, p("/home/u/.cache/microsoft-edge"));
    assert_eq!(node.total_size, 86_000_000);
}

#[test]
fn package_scan_uses_its_own_threshold() {
    let home = p("/home/u");
    let roots = get_package_manager_paths(&home, Platform::Linux);
    assert_eq!(roots.len(), 8);
    let mut sizes: Vec<Option<u64>> = vec![None; 8];
    sizes[0] = Some(9_000_000); // pip: below the 10MB floor
    sizes[4] = Some(50_000_000); // cargo registry cache
    let node = scan_package_managers(&home, Platform::Linux, &sizes);
    assert_eq!(node.category, JunkCategory::PackageManagers);
    assert_eq!(node.items.len(), 1);
    assert_eq!(node.items[0].path, p("/home/u/.cargo/registry/cache"));
    assert_eq!(node.items[0].junk_type, p("Cargo"));
}

#[test]
fn hoarding_scan_collects_all_four_groups() {
    let home = p("/Users/u");
    let now: u64 = 10_000_000;
    let downloads_walk = vec![
        // Old enough and big enough.
        FileEntry { path: p("/Users/u/Downloads/old.zip"), size: 2_000_000, is_file: true, modified: 1_000_000 },
        // Too recent: the cutoff is thirty days before `now`.
        FileEntry { path: p("/Users/u/Downloads/new.zip"), size: 2_000_000, is_file: true, modified: 9_000_000 },
        // Too small.
        FileEntry { path: p("/Users/u/Downloads/small.zip"), size: 500_000, is_file: true, modified: 1_000_000 },
    ];
    let desktop = vec![
        file("/Users/u/Desktop/Screenshot 2024-01-01.png", 300_000),
        file("/Users/u/Desktop/holiday.png", 900_000),
        file("/Users/u/Desktop/Capture One.png", 100_000),
    ];
    let downloads_top = vec![
        file("/Users/u/Downloads/Setup.DMG", 700_000),
        file("/Users/u/Downloads/notes.txt", 800_000),
    ];
    let node = scan_user_hoarding(
        &home,
        Platform::MacOs,
        &downloads_walk,
        &desktop,
        &downloads_top,
        Some(20_000_000),
        now,
    );
    assert_eq!(node.category, JunkCategory::UserHoarding);
    assert_eq!(node.items.len(), 5);
    // Sorted by descending size: the mail cache dominates.
    assert_eq!(node.items[0].path, p("/Users/u/Library/Containers/com.apple.mail/Data/Library/Mail Downloads"));
    assert_eq!(node.items[0].junk_type, p("Mail Downloads"));
    assert_eq!(node.items[1].path, p("/Users/u/Downloads/old.zip"));
    assert_eq!(node.items[1].junk_type, p("Old Download"));
    let labels: Vec<Vec<char>> = node.items.iter().map(|i| i.junk_type.clone()).collect();
    assert!(labels.contains(&p("Screenshot")));
    assert!(labels.contains(&p("Installer")));
    assert_eq!(node.total_size, 20_000_000 + 2_000_000 + 300_000 + 100_000 + 700_000);
}

#[test]
fn mail_cache_needs_the_platform_and_the_threshold() {
    let home = p("/home/u");
    let node = scan_user_hoarding(
        &home,
        Platform::Linux,
        &Vec::new(),
        &Vec::new(),
        &Vec::new(),
        Some(20_000_000),
        10_000_000,
    );
    assert_eq!(node.items.len(), 0);
    let node = scan_user_hoarding(
        &p("/Users/u"),
        Platform::MacOs,
        &Vec::new(),
        &Vec::new(),
        &Vec::new(),
        Some(9_000_000),
        10_000_000,
    );
    assert_eq!(node.items.len(), 0);
}

#[test]
fn large_files_exclude_disk_images_and_keep_media() {
    // Both files clear the 500MB floor; the virtual-machine disk is
    // excluded by extension, the movie is kept.
    let home = p("/Users/u");
    let dirs = get_large_file_dirs(&home, Platform::MacOs);
    assert_eq!(dirs.len(), 4);
    let listings = vec![
        vec![
            file("/Users/u/Downloads/disk.vmdk", 600_000_000),
            file("/Users/u/Downloads/movie.mp4", 600_000_000),
        ],
        Vec::new(),
        Vec::new(),
        Vec::new(),
    ];
    let node = scan_large_files(&home, Platform::MacOs, &listings);
    assert_eq!(node.category, JunkCategory::LargeFiles);
    assert_eq!(node.items.len(), 1);
    assert_eq!(node.items[0].path, p("/Users/u/Downloads/movie.mp4"));
    assert_eq!(node.items[0].junk_type, p("MP4"));
}

#[test]
fn large_file_below_floor_or_without_extension_is_labelled_plainly() {
    let home = p("/Users/u");
    let listings = vec![
        vec![
            file("/Users/u/Downloads/almost", 499_999_999),
            file("/Users/u/Downloads/blob", 500_000_000),
        ],
        Vec::new(),
        Vec::new(),
        Vec::new(),
    ];
    let node = scan_large_files(&home, Platform::MacOs, &listings);
    assert_eq!(node.items.len(), 1);
    assert_eq!(node.items[0].path, p("/Users/u/Downloads/blob"));
    assert_eq!(node.items[0].junk_type, p("Large File"));
}

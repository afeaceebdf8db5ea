use kin_vfs::statfill::{
    blocks_for, fortify_within_bounds, stat_record, vstat_mode_bits, StatRecord, BLKSIZE,
    SYNTHETIC_DEV,
};
use kin_vfs::types::VirtualStat;

#[test]
fn fortify_bounds_allows_equal_and_smaller() {
    assert!(fortify_within_bounds(0, 0));
    assert!(fortify_within_bounds(10, 10));
    assert!(fortify_within_bounds(4, 8));
}

#[test]
fn fortify_bounds_rejects_overflow() {
    assert!(!fortify_within_bounds(9, 8));
    assert!(!fortify_within_bounds(usize::MAX, 0));
}

fn file_vstat() -> VirtualStat {
    VirtualStat {
        size: 1024,
        is_file: true,
        is_dir: false,
        is_symlink: false,
        mode: 0o644,
        mtime: 1700,
        ctime: 1600,
        nlink: 1,
        content_hash: Some([0u8; 32]),
        object_id: None,
    }
}

#[test]
fn mode_bits_set_file_type_and_perms() {
    let bits = vstat_mode_bits(&file_vstat());
    assert_eq!(bits & libc::S_IFMT as u32, libc::S_IFREG as u32);
    assert_eq!(bits & 0o777, 0o644);
}

#[test]
fn mode_bits_set_dir_type() {
    let mut v = file_vstat();
    v.is_file = false;
    v.is_dir = true;
    v.mode = 0o755;
    let bits = vstat_mode_bits(&v);
    assert_eq!(bits & libc::S_IFMT as u32, libc::S_IFDIR as u32);
    assert_eq!(bits & 0o777, 0o755);
}

#[test]
fn mode_bits_set_symlink_type() {
    let mut v = file_vstat();
    v.is_file = false;
    v.is_symlink = true;
    let bits = vstat_mode_bits(&v);
    assert_eq!(bits & libc::S_IFMT as u32, libc::S_IFLNK as u32);
}

#[test]
fn statx_mode_round_trips_through_u16() {
    // statx stores the mode in a u16 — ensure no type/perm bits are lost
    // when the fill narrows the value.
    let bits = vstat_mode_bits(&file_vstat());
    assert_eq!(bits as u16 as u32, bits, "mode must round-trip through u16");
}

#[test]
fn blocks_round_up() {
    assert_eq!(blocks_for(0), 0);
    assert_eq!(blocks_for(1), 1);
    assert_eq!(blocks_for(512), 1);
    assert_eq!(blocks_for(513), 2);
}

#[test]
fn a_record_carries_every_field_the_callers_see() {
    let vstat = file_vstat();
    assert_eq!(
        stat_record(&vstat, 77),
        StatRecord {
            size: 1024,
            nlink: 1,
            mode: libc::S_IFREG | 0o644,
            atime: 1700,
            mtime: 1700,
            ctime: 1600,
            blksize: BLKSIZE,
            blocks: 2,
            ino: 77,
            dev: SYNTHETIC_DEV,
        }
    );
}

#[test]
fn blocks_of_the_largest_size_do_not_overflow() {
    assert_eq!(blocks_for(u64::MAX), 1u64 << 55);
}

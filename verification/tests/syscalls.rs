use os_kernel::config::PAGE_SIZE;
use os_kernel::mm::{MapPermission, PTEFlags, UserPage};
use os_kernel::syscall::process::{
    align_len_up, prot_to_permission, sys_mmap, sys_munmap, sys_sbrk, sys_trace, sys_yield,
    user_read_u8, user_write_u8, with_user_byte,
};
use os_kernel::syscall::time::{sys_get_time, TimeVal};
use std::cell::Cell;

fn page(readable: bool, writable: bool) -> Option<UserPage> {
    let flags = PTEFlags { valid: true, readable, writable, user: true };
    Some(UserPage { flags, bytes: vec![0; PAGE_SIZE] })
}

fn permission(readable: bool, writable: bool, executable: bool) -> MapPermission {
    MapPermission { readable, writable, executable, user: true }
}

#[test]
fn page_size_is_four_kilobytes() {
    assert_eq!(PAGE_SIZE, 4096);
}

#[test]
fn yield_suspends_once() {
    let calls = Cell::new(0);
    assert_eq!(sys_yield(|| calls.set(calls.get() + 1)), 0);
    assert_eq!(calls.get(), 1);
}

#[test]
fn sbrk_returns_the_old_break() {
    assert_eq!(sys_sbrk(16, |size| Some(0x1000 + size as usize)), 0x1010);
    assert_eq!(sys_sbrk(-16, |size| if size < 0 { None } else { Some(0) }), -1);
    assert_eq!(sys_sbrk(0, |_| Some(usize::MAX)), -1);
    assert_eq!(sys_sbrk(0, |_| Some(isize::MAX as usize + 1)), isize::MIN);
}

#[test]
fn time_is_split_into_seconds_and_microseconds() {
    assert_eq!(TimeVal::from_us(12_345_678), TimeVal { sec: 12, usec: 345_678 });
    assert_eq!(TimeVal::from_us(999_999), TimeVal { sec: 0, usec: 999_999 });
    assert_eq!(TimeVal::from_us(1_000_000), TimeVal { sec: 1, usec: 0 });
}

#[test]
fn time_is_written_little_endian() {
    let bytes = TimeVal { sec: 0x0102, usec: 0x0a0b0c }.to_bytes();
    let word = std::mem::size_of::<usize>();
    assert_eq!(bytes.len(), 2 * word);
    assert_eq!(bytes[..3], [0x02, 0x01, 0x00]);
    assert_eq!(bytes[word..word + 4], [0x0c, 0x0b, 0x0a, 0x00]);
    assert_eq!(bytes[..word], 0x0102_usize.to_le_bytes());
}

#[test]
fn time_spans_pages() {
    let word = std::mem::size_of::<usize>();
    let mut buffers = vec![vec![0xff; 3], vec![], vec![0xff; 2 * word - 3]];
    assert_eq!(sys_get_time(0x1ffd, 0, 77_000_001, &mut buffers), 0);
    assert_eq!(buffers[0].len(), 3);
    assert_eq!(buffers[1].len(), 0);
    let written = buffers.concat();
    let mut expected = 77_usize.to_le_bytes().to_vec();
    expected.extend_from_slice(&1_usize.to_le_bytes());
    assert_eq!(written, expected);
}

#[test]
fn time_is_not_written_to_null() {
    let mut buffers = vec![vec![9; 4]];
    assert_eq!(sys_get_time(0, 0, 5, &mut buffers), -1);
    assert_eq!(buffers, vec![vec![9; 4]]);
}

#[test]
fn byte_is_read_back_after_write() {
    let mut p = page(true, true);
    assert_eq!(user_write_u8(&mut p, 0x5003, 42), Some(()));
    assert_eq!(user_read_u8(&mut p, 0x5003), Some(42));
    assert_eq!(user_read_u8(&mut p, 0x5004), Some(0));
    assert_eq!(p.as_ref().map(|entry| entry.bytes[3]), Some(42));
}

#[test]
fn access_follows_the_flags() {
    let mut read_only = page(true, false);
    assert_eq!(user_read_u8(&mut read_only, 1), Some(0));
    assert_eq!(user_write_u8(&mut read_only, 1, 7), None);
    assert_eq!(user_read_u8(&mut read_only, 1), Some(0));
    let mut write_only = page(false, true);
    assert_eq!(user_read_u8(&mut write_only, 1), None);
    assert_eq!(user_write_u8(&mut write_only, 1, 7), Some(()));
    let mut unmapped: Option<UserPage> = None;
    assert_eq!(user_read_u8(&mut unmapped, 1), None);
    assert_eq!(user_write_u8(&mut unmapped, 1, 7), None);
    assert!(unmapped.is_none());
    for (valid, user) in [(false, true), (true, false)] {
        let flags = PTEFlags { valid, readable: true, writable: true, user };
        let mut p = Some(UserPage { flags, bytes: vec![3; PAGE_SIZE] });
        assert_eq!(user_read_u8(&mut p, 1), None);
        assert_eq!(user_write_u8(&mut p, 1, 7), None);
        assert_eq!(p.map(|entry| entry.bytes), Some(vec![3; PAGE_SIZE]));
    }
}

#[test]
fn byte_can_be_updated_in_place() {
    let mut p = page(true, true);
    assert_eq!(with_user_byte(&mut p, 8, true, |b| (b + 5, "done")), Some("done"));
    assert_eq!(user_read_u8(&mut p, 8), Some(5));
}

#[test]
fn trace_requests() {
    let mut p = page(true, true);
    assert_eq!(sys_trace(1, 0x2010, 0x1ff, &mut p, |_| 0), 0);
    assert_eq!(sys_trace(0, 0x2010, 0, &mut p, |_| 0), 255);
    assert_eq!(sys_trace(2, 64, 0, &mut p, |id| id + 1), 65);
    assert_eq!(sys_trace(3, 64, 0, &mut p, |id| id + 1), -1);
    let mut read_only = page(true, false);
    assert_eq!(sys_trace(1, 0, 1, &mut read_only, |_| 0), -1);
    assert_eq!(sys_trace(0, 0, 0, &mut read_only, |_| 0), 0);
    let mut unmapped: Option<UserPage> = None;
    assert_eq!(sys_trace(0, 0, 0, &mut unmapped, |_| 0), -1);
}

#[test]
fn protection_bits() {
    assert_eq!(prot_to_permission(0), None);
    assert_eq!(prot_to_permission(1), Some(permission(true, false, false)));
    assert_eq!(prot_to_permission(2), Some(permission(false, true, false)));
    assert_eq!(prot_to_permission(4), Some(permission(false, false, true)));
    assert_eq!(prot_to_permission(7), Some(permission(true, true, true)));
    assert_eq!(prot_to_permission(8), None);
    assert_eq!(prot_to_permission(9), None);
}

#[test]
fn lengths_are_rounded_to_pages() {
    assert_eq!(align_len_up(0), Some(0));
    assert_eq!(align_len_up(1), Some(4096));
    assert_eq!(align_len_up(4096), Some(4096));
    assert_eq!(align_len_up(4097), Some(8192));
    assert_eq!(align_len_up(usize::MAX), None);
    assert_eq!(align_len_up(usize::MAX - 4095), Some(usize::MAX - 4095));
}

#[test]
fn mmap_maps_whole_pages() {
    let asked = Cell::new(None);
    let status = sys_mmap(0x10000, 5000, 3, |start, end, perm| {
        asked.set(Some((start, end, perm)));
        Ok(())
    });
    assert_eq!(status, 0);
    assert_eq!(asked.get(), Some((0x10000, 0x12000, permission(true, true, false))));
    assert_eq!(sys_mmap(0x10000, 1, 1, |_, _, _| Err(())), -1);
}

#[test]
fn mmap_refuses_bad_arguments() {
    assert_eq!(sys_mmap(0x10001, 1, 1, |_, _, _| Ok(())), -1);
    assert_eq!(sys_mmap(0x10000, 1, 0, |_, _, _| Ok(())), -1);
    assert_eq!(sys_mmap(0x10000, 1, 8, |_, _, _| Ok(())), -1);
    assert_eq!(sys_mmap(0x10000, usize::MAX, 1, |_, _, _| Ok(())), -1);
    assert_eq!(sys_mmap(usize::MAX - 4095, 1, 1, |_, _, _| Ok(())), -1);
    // Nothing is mapped for no bytes, but the other arguments still count.
    assert_eq!(sys_mmap(0x10000, 0, 1, |_, _, _| Err(())), 0);
    assert_eq!(sys_mmap(0x10000, 0, 0, |_, _, _| Ok(())), -1);
}

#[test]
fn munmap_unmaps_the_range() {
    let asked = Cell::new(None);
    let status = sys_munmap(0x10000, 0x2000, |start, end| {
        asked.set(Some((start, end)));
        Ok(())
    });
    assert_eq!(status, 0);
    assert_eq!(asked.get(), Some((0x10000, 0x12000)));
    assert_eq!(sys_munmap(0x10000, 0x1000, |_, _| Err(())), -1);
}

#[test]
fn munmap_refuses_bad_arguments() {
    assert_eq!(sys_munmap(0x10001, 0x1000, |_, _| Ok(())), -1);
    assert_eq!(sys_munmap(0x10001, 0, |_, _| Ok(())), -1);
    assert_eq!(sys_munmap(0x10000, 0x1001, |_, _| Ok(())), -1);
    assert_eq!(sys_munmap(usize::MAX - 4095, 0x1000, |_, _| Ok(())), -1);
    assert_eq!(sys_munmap(0x10000, 0, |_, _| Err(())), 0);
}

#[test]
fn mapped_range_can_be_unmapped() {
    for len in [1, 4095, 4096, 4097, 10_000] {
        let range = Cell::new((0, 0));
        assert_eq!(
            sys_mmap(0x4000, len, 1, |start, end, _| {
                range.set((start, end));
                Ok(())
            }),
            0
        );
        let (start, end) = range.get();
        assert!(end - start >= len && end - start < len + PAGE_SIZE);
        assert_eq!(sys_munmap(start, end - start, |_, _| Ok(())), 0);
    }
}

use gtrace::decode::path_data;
use gtrace::tracee::{absorb_batch, absorb_page};
use gtrace::{OsTraceError, PageIter};
use nix::errno::Errno;

#[test]
fn failed_first_page_fails_the_copy() {
    let mut acc = Vec::new();
    let r = absorb_page(&mut acc, Err(OsTraceError::BadAddress), 10, true, false);
    assert!(matches!(r, Err(OsTraceError::BadAddress)));
    assert!(acc.is_empty());
    let r = absorb_page(&mut acc, Err(OsTraceError::Sys(Errno::ESRCH)), 10, true, false);
    assert!(matches!(r, Err(OsTraceError::Sys(Errno::ESRCH))));
}

#[test]
fn unmapped_later_page_gives_partial_copy() {
    let mut acc = b"abc".to_vec();
    let r = absorb_page(&mut acc, Err(OsTraceError::BadAddress), 10, false, false);
    assert!(matches!(r, Ok(Some(false))));
    assert_eq!(acc, b"abc".to_vec());
}

#[test]
fn other_failure_on_later_page_is_returned() {
    let mut acc = b"abc".to_vec();
    let r = absorb_page(&mut acc, Err(OsTraceError::Sys(Errno::ESRCH)), 10, false, true);
    assert!(matches!(r, Err(OsTraceError::Sys(Errno::ESRCH))));
    assert_eq!(acc, b"abc".to_vec());
}

#[test]
fn page_with_nul_completes_the_copy() {
    let mut acc = b"ab".to_vec();
    let r = absorb_page(&mut acc, Ok(vec![b'c', 0, b'x']), 3, false, false);
    assert!(matches!(r, Ok(Some(true))));
    assert_eq!(acc, vec![b'a', b'b', b'c', 0]);
}

#[test]
fn short_page_without_nul_is_incomplete() {
    let mut acc = Vec::new();
    let r = absorb_page(&mut acc, Ok(Vec::new()), 4, true, true);
    assert!(matches!(r, Ok(Some(false))));
    assert!(acc.is_empty());
}

#[test]
fn full_page_without_nul_goes_on_or_ends_at_bound() {
    let mut acc = Vec::new();
    let r = absorb_page(&mut acc, Ok(b"xyz".to_vec()), 3, true, false);
    assert!(matches!(r, Ok(None)));
    let r = absorb_page(&mut acc, Ok(b"uv".to_vec()), 2, false, true);
    assert!(matches!(r, Ok(Some(true))));
    assert_eq!(acc, b"xyzuv".to_vec());
}

#[test]
fn batches_go_on_only_when_read_whole() {
    let mut acc = vec![1u8];
    assert!(matches!(absorb_batch(&mut acc, Ok(vec![2, 3]), 2, false), Ok(true)));
    assert!(matches!(absorb_batch(&mut acc, Ok(vec![4]), 2, false), Ok(false)));
    assert_eq!(acc, vec![1, 2, 3, 4]);
    assert!(matches!(absorb_batch(&mut acc, Err(OsTraceError::BadAddress), 2, false), Ok(false)));
    assert!(matches!(
        absorb_batch(&mut acc, Err(OsTraceError::BadAddress), 2, true),
        Err(OsTraceError::BadAddress)
    ));
    assert!(matches!(
        absorb_batch(&mut acc, Err(OsTraceError::Sys(Errno::EPERM)), 2, false),
        Err(OsTraceError::Sys(Errno::EPERM))
    ));
    assert_eq!(acc, vec![1, 2, 3, 4]);
}

#[test]
fn incomplete_path_read_still_gives_data() {
    let r = path_data(Ok((b"/us".to_vec(), false)));
    assert!(matches!(r, Ok(Some(ref d)) if d == b"/us"));
    let r = path_data(Err(OsTraceError::BadAddress));
    assert!(matches!(r, Err(OsTraceError::BadAddress)));
}

#[test]
fn is_done_after_last_piece() {
    let mut it = PageIter::new(0, 3, 4);
    assert!(!it.is_done());
    assert_eq!(it.next(), Some((0, 3)));
    assert!(it.is_done());
}

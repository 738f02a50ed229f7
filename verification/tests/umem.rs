use farsight::controller::receiver::{fill_address, locate, Received};
use farsight::controller::xsk::{frames_needed, starting_frame, Role, Xsk};
use farsight::xdp::ring::Descriptor;
use farsight::xdp::socket::{bind_address, BindFlags};
use farsight::xdp::tx_metadata::{TxMetadata, TxMetadataRc, TX_METADATA_LEN};
use farsight::xdp::umem::{Umem, UmemReg};
use std::collections::HashSet;

#[test]
fn umem_is_frames_times_frame_size() {
    let umem = Umem::new(0x10000, 2048, 16).unwrap();
    assert_eq!(umem.as_ptr(), 0x10000);
    assert_eq!(umem.size(), 32768);
    assert_eq!(umem.frame_size(), 2048);
    assert_eq!(umem.frame_offset(0), 0);
    assert_eq!(umem.frame_offset(1), 2048);
    assert_eq!(umem.frame_offset(15), 30720);
}

#[test]
fn umem_must_be_aligned_and_fit() {
    assert!(Umem::new(16384, 2048, 4).is_some());
    assert!(Umem::new(16385, 2048, 4).is_none());
    assert!(Umem::new(4096, 2048, 4).is_none());
    assert!(Umem::new(0, 65536, 65536).is_none());
    assert!(Umem::new(0, 65536, 65535).is_some());
    assert!(Umem::new(u64::MAX - 16383, 2048, 8).is_none());
    assert!(Umem::new(0, 0, 7).is_some());
    assert_eq!(Umem::bytes_for(2048, 4096), Some(8 << 20));
    assert_eq!(Umem::bytes_for(u32::MAX, 2), None);
}

#[test]
fn registration_names_the_arena() {
    let umem = Umem::new(0x4000, 2048, 8).unwrap();
    let mut reg = umem.as_reg();
    assert_eq!(
        reg,
        UmemReg {
            addr: 0x4000,
            len: 16384,
            frame_size: 2048,
            headroom: 0,
            flags: 4,
            tx_metadata_len: 16,
        }
    );
    reg.remove_flags();
    assert_eq!(reg.flags, 0);
    assert_eq!(reg.tx_metadata_len, 16);
    assert_eq!(reg.addr, 0x4000);
    assert_eq!(UmemReg::default().len, 0);
}

#[test]
fn frames_are_parted_by_queue_and_role() {
    let queue_count = 4;
    let ring_size = 8;
    let mut owned: HashSet<u32> = HashSet::new();
    for q in 0..queue_count {
        for role in [Role::Sender, Role::Receiver] {
            let first = starting_frame(role, q, queue_count, ring_size).unwrap();
            for frame in first..first + ring_size {
                assert!(owned.insert(frame));
            }
        }
    }
    assert_eq!(owned.len() as u32, frames_needed(queue_count, ring_size).unwrap());
    assert_eq!(owned.iter().max(), Some(&(2 * queue_count * ring_size - 1)));
}

#[test]
fn starting_frames_follow_the_layout() {
    assert_eq!(starting_frame(Role::Sender, 0, 4, 2048), Some(0));
    assert_eq!(starting_frame(Role::Receiver, 0, 4, 2048), Some(2048));
    assert_eq!(starting_frame(Role::Sender, 3, 4, 2048), Some(6 * 2048));
    assert_eq!(starting_frame(Role::Receiver, 3, 4, 2048), Some(7 * 2048));
    assert_eq!(starting_frame(Role::SendOnly, 1, 4, 2048), Some(5 * 2048));
    assert_eq!(starting_frame(Role::SendOnly, 3, 4, 2048), Some(7 * 2048));
    assert_eq!(starting_frame(Role::Sender, u32::MAX, 1, 2), None);
    assert_eq!(starting_frame(Role::SendOnly, 1, u32::MAX, 1), None);
    assert_eq!(starting_frame(Role::Receiver, u32::MAX, 1, 0), Some(0));
}

#[test]
fn send_only_sockets_have_frames_of_their_own_among_themselves() {
    let mut owned: HashSet<u32> = HashSet::new();
    for q in 1..4 {
        let first = starting_frame(Role::SendOnly, q, 4, 8).unwrap();
        for frame in first..first + 8 {
            assert!(owned.insert(frame));
        }
    }
}

#[test]
fn frames_needed_is_two_runs_per_queue() {
    assert_eq!(frames_needed(4, 2048), Some(16384));
    assert_eq!(frames_needed(0, 2048), Some(0));
    assert_eq!(frames_needed(1, 0), Some(0));
    assert_eq!(frames_needed(u32::MAX, 0), Some(0));
    assert_eq!(frames_needed(1 << 20, 1 << 11), None);
    assert_eq!(frames_needed(1 << 20, 1 << 10), Some(1 << 31));
    assert_eq!(frames_needed(u32::MAX, 1), None);
}

#[test]
fn bind_arguments_by_kind_of_socket() {
    let (flags, fd) = Xsk::Base(BindFlags::zero_copy()).bind_args();
    assert_eq!(flags.bits(), 8 | 4);
    assert_eq!(fd, 0);
    let (flags, fd) = Xsk::Base(BindFlags::empty()).bind_args();
    assert_eq!(flags.bits(), 8);
    assert_eq!(fd, 0);
    let (flags, fd) = Xsk::Shared(17).bind_args();
    assert_eq!(flags.bits(), 1);
    assert_eq!(fd, 17);
    let (flags, fd) = Xsk::Shared(17).sender_only_args().unwrap();
    assert_eq!((flags.bits(), fd), (1, 17));
    assert!(Xsk::Base(BindFlags::copy()).sender_only_args().is_none());
}

#[test]
fn bind_flags_and_address() {
    assert_eq!(BindFlags::shared_umem().bits(), 1);
    assert_eq!(BindFlags::copy().bits(), 2);
    assert_eq!(BindFlags::zero_copy().bits(), 4);
    assert_eq!(BindFlags::need_wakeup().bits(), 8);
    assert_eq!(BindFlags::use_sg().bits(), 16);
    let both = BindFlags::copy().union(BindFlags::need_wakeup());
    assert_eq!(both.bits(), 10);
    assert!(both.contains(BindFlags::copy()));
    assert!(!both.contains(BindFlags::zero_copy()));
    let address = bind_address(both, 3, 5, 0);
    assert_eq!(address.family, 44);
    assert_eq!(address.flags, 10);
    assert_eq!(address.ifindex, 3);
    assert_eq!(address.queue_id, 5);
    assert_eq!(address.shared_umem_fd, 0);
}

#[test]
fn received_frames_are_found_inside_the_arena() {
    let desc = Descriptor { addr: 4096, len: 60, options: 0 };
    assert_eq!(locate(&desc, 8192), Some(Received { comp_addr: 4096, start: 4096, len: 60 }));
    let offset = Descriptor { addr: (256u64 << 48) | 4096, len: 60, options: 0 };
    assert_eq!(locate(&offset, 8192), Some(Received { comp_addr: 4096, start: 4352, len: 60 }));
    let end = Descriptor { addr: 8132, len: 60, options: 0 };
    assert_eq!(locate(&end, 8192), Some(Received { comp_addr: 8132, start: 8132, len: 60 }));
    let past = Descriptor { addr: 8133, len: 60, options: 0 };
    assert_eq!(locate(&past, 8192), None);
    let far = Descriptor { addr: u64::MAX, len: u32::MAX, options: 0 };
    assert_eq!(locate(&far, 1 << 40), None);
    assert!(locate(&far, usize::MAX).is_some());
}

#[test]
fn fill_addresses_are_frame_starts() {
    assert_eq!(fill_address(2048, 0, 2048), Some(2048 * 2048));
    assert_eq!(fill_address(2048, 5, 2048), Some(2053 * 2048));
    assert_eq!(fill_address(0, 0, 0), Some(0));
    assert_eq!(fill_address(u32::MAX, 1, 1), None);
    assert_eq!(fill_address(1 << 21, 0, 2048), None);
    assert_eq!(fill_address((1 << 21) - 1, 0, 2048), Some(((1u64 << 21) - 1) * 2048));
}

#[test]
fn metadata_header_bytes() {
    assert_eq!(TX_METADATA_LEN, 16);
    let request = TxMetadata::request(2, 34, 16);
    assert_eq!(request.flags, 2);
    assert_eq!(request.to_bytes(), [2, 0, 0, 0, 0, 0, 0, 0, 34, 0, 16, 0, 0, 0, 0, 0]);
    let wide = TxMetadata::request(0x0102_0304_0506_0708, 0x1234, 0xabcd);
    assert_eq!(wide.to_bytes(), [8, 7, 6, 5, 4, 3, 2, 1, 0x34, 0x12, 0xcd, 0xab, 0, 0, 0, 0]);
    let completion = TxMetadata::completion(1, 0x1122_3344_5566_7788);
    assert!(matches!(completion.rc, TxMetadataRc::Completion(c) if c.timestamp == 0x1122_3344_5566_7788));
    assert_eq!(
        completion.to_bytes(),
        [1, 0, 0, 0, 0, 0, 0, 0, 0x88, 0x77, 0x66, 0x55, 0x44, 0x33, 0x22, 0x11]
    );
}

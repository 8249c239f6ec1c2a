use std::time::Duration;
use usb_async::transfer::{
    CONTROL_SETUP_SIZE, LIBUSB_TRANSFER_TYPE_BULK, LIBUSB_TRANSFER_TYPE_CONTROL,
    LIBUSB_TRANSFER_TYPE_INTERRUPT,
};
use usb_async::{
    async_group_callback, AsyncGroup, Context, DeviceHandle, Transfer, TransferStatus, WaitStep,
};

fn complete<'d>(
    context: &'d Context,
    t: Transfer<'d>,
    status: i32,
    data: &[u8],
) -> Transfer<'d> {
    let mut group = AsyncGroup::new(context);
    let descriptor = t.descriptor();
    group.submit(t, 0).unwrap();
    async_group_callback(&mut group, descriptor, status, data);
    match group.wait_any(0) {
        Ok(WaitStep::Ready(t)) => t,
        other => panic!("no transfer came back: {:?}", other),
    }
}

#[test]
fn bulk_transfer_keeps_what_it_was_built_with() {
    let handle = DeviceHandle::new(0x1000);
    let mut t = Transfer::bulk(&handle, 42, 0x81, vec![1, 2, 3], Duration::from_millis(1000));
    assert_eq!(t.descriptor(), 42);
    assert_eq!(t.device().as_raw(), 0x1000);
    assert_eq!(t.endpoint(), 0x81);
    assert_eq!(t.transfer_type(), LIBUSB_TRANSFER_TYPE_BULK);
    assert_eq!(t.transfer_type(), 2);
    assert_eq!(t.timeout(), Duration::from_millis(1000));
    assert_eq!(t.timeout_ms(), 1000);
    assert_eq!(t.status(), TransferStatus::Unknown);
    assert_eq!(t.buffer(), &mut [1u8, 2, 3][..]);
    assert_eq!(t.actual().len(), 0);
}

#[test]
fn interrupt_transfer_keeps_what_it_was_built_with() {
    let handle = DeviceHandle::new(7);
    let mut t = Transfer::interrupt(&handle, 5, 0x83, vec![9; 8], Duration::from_millis(250));
    assert_eq!(t.descriptor(), 5);
    assert_eq!(t.endpoint(), 0x83);
    assert_eq!(t.transfer_type(), LIBUSB_TRANSFER_TYPE_INTERRUPT);
    assert_eq!(t.transfer_type(), 3);
    assert_eq!(t.timeout(), Duration::from_millis(250));
    assert_eq!(t.status(), TransferStatus::Unknown);
    assert_eq!(t.buffer(), &mut [9u8; 8][..]);
}

#[test]
fn timeout_is_kept_in_whole_milliseconds() {
    let handle = DeviceHandle::new(7);
    let t = Transfer::bulk(&handle, 1, 1, vec![], Duration::new(1, 500_999_999));
    assert_eq!(t.timeout(), Duration::from_millis(1500));
    let t = Transfer::bulk(&handle, 1, 1, vec![], Duration::new(0, 999_999));
    assert_eq!(t.timeout(), Duration::from_millis(0));
    let t = Transfer::bulk(&handle, 1, 1, vec![], Duration::new(3, 0));
    assert_eq!(t.timeout(), Duration::from_millis(3000));
    assert_eq!(t.timeout().as_secs(), 3);
    assert_eq!(t.timeout().subsec_nanos(), 0);
    let t = Transfer::bulk(&handle, 1, 1, vec![], Duration::new(0, 7_000_000));
    assert_eq!(t.timeout().as_secs(), 0);
    assert_eq!(t.timeout().subsec_nanos(), 7_000_000);
}

#[test]
fn timeout_is_reduced_to_the_width_of_the_descriptor_field() {
    let handle = DeviceHandle::new(7);
    // 4294967 s and 296 ms are 2^32 ms: the field wraps to zero.
    let t = Transfer::bulk(&handle, 1, 1, vec![], Duration::new(4_294_967, 296_000_000));
    assert_eq!(t.timeout(), Duration::from_millis(0));
    let t = Transfer::bulk(&handle, 1, 1, vec![], Duration::new(4_294_967, 295_000_000));
    assert_eq!(t.timeout(), Duration::from_millis(4_294_967_295));
    let t = Transfer::bulk(&handle, 1, 1, vec![], Duration::new(4_294_967, 301_000_000));
    assert_eq!(t.timeout(), Duration::from_millis(5));
    assert_eq!(t.timeout_ms(), 5);
    // u64::MAX s = 18446744073709551615 s; times 1000, modulo 2^32, is 2^32 - 1000.
    let t = Transfer::bulk(&handle, 1, 1, vec![], Duration::new(u64::MAX, 999_999_999));
    assert_eq!(t.timeout(), Duration::from_millis(4_294_967_295));
    let t = Transfer::bulk(&handle, 1, 1, vec![], Duration::new(u64::MAX, 0));
    assert_eq!(t.timeout(), Duration::from_millis(4_294_966_296));
}

#[test]
fn control_transfer_prepends_the_setup_header() {
    let handle = DeviceHandle::new(7);
    let mut t = Transfer::control(
        &handle,
        3,
        0,
        vec![0; 18],
        0x80,
        0x06,
        0x0100,
        0,
        Duration::from_millis(1000),
    );
    assert_eq!(t.buffer().len(), 26);
    assert_eq!(&t.buffer()[..8], &[0x80, 0x06, 0x00, 0x01, 0x00, 0x00, 0x12, 0x00]);
    assert_eq!(&t.buffer()[8..], &[0u8; 18]);
    assert_eq!(t.transfer_type(), LIBUSB_TRANSFER_TYPE_CONTROL);
    assert_eq!(t.transfer_type(), 0);
    assert_eq!(t.endpoint(), 0);
    assert_eq!(t.timeout(), Duration::from_millis(1000));
    assert_eq!(t.status(), TransferStatus::Unknown);
}

#[test]
fn control_header_is_little_endian() {
    let handle = DeviceHandle::new(7);
    let payload: Vec<u8> = (0..0x0203).map(|i| (i % 251) as u8).collect();
    let mut t = Transfer::control(
        &handle,
        3,
        0,
        payload.clone(),
        0x21,
        0x09,
        0xABCD,
        0x1234,
        Duration::from_millis(10),
    );
    assert_eq!(&t.buffer()[..8], &[0x21, 0x09, 0xCD, 0xAB, 0x34, 0x12, 0x03, 0x02]);
    assert_eq!(&t.buffer()[8..], &payload[..]);
    assert_eq!(t.buffer().len(), 8 + 0x0203);
}

#[test]
fn control_header_of_an_empty_payload() {
    let handle = DeviceHandle::new(7);
    let mut t =
        Transfer::control(&handle, 3, 0, vec![], 0xff, 0xff, 0xffff, 0xffff, Duration::new(0, 0));
    assert_eq!(t.buffer(), &mut [0xffu8, 0xff, 0xff, 0xff, 0xff, 0xff, 0x00, 0x00][..]);
    assert_eq!(t.buffer().len(), CONTROL_SETUP_SIZE);
    assert_eq!(t.actual().len(), 0);
}

#[test]
fn control_header_length_keeps_the_low_sixteen_bits() {
    let handle = DeviceHandle::new(7);
    let mut t = Transfer::control(
        &handle,
        3,
        0,
        vec![0; 0x1_0105],
        0,
        0,
        0,
        0,
        Duration::from_millis(0),
    );
    assert_eq!(&t.buffer()[..8], &[0, 0, 0, 0, 0, 0, 0x05, 0x01]);
    assert_eq!(t.buffer().len(), 8 + 0x1_0105);
}

#[test]
fn bulk_completion_reports_status_and_endpoint() {
    let context = Context::new(1);
    let handle = DeviceHandle::new(7);
    let t = Transfer::bulk(&handle, 11, 0x81, vec![0; 64], Duration::from_millis(1000));
    let data: Vec<u8> = (0..64).collect();
    let mut t = complete(&context, t, 0, &data);
    assert_eq!(t.status(), TransferStatus::Success);
    assert_eq!(t.endpoint(), 0x81);
    assert_eq!(t.descriptor(), 11);
    assert_eq!(t.timeout(), Duration::from_millis(1000));
    assert_eq!(t.actual(), &mut data.clone()[..]);
    assert_eq!(t.buffer(), &mut data.clone()[..]);
}

#[test]
fn short_bulk_completion_reports_only_what_was_transferred() {
    let context = Context::new(1);
    let handle = DeviceHandle::new(7);
    let t = Transfer::bulk(&handle, 11, 0x81, vec![0xee; 8], Duration::from_millis(1));
    let mut t = complete(&context, t, 0, &[1, 2, 3]);
    assert_eq!(t.actual(), &mut [1u8, 2, 3][..]);
    assert_eq!(t.buffer(), &mut [1u8, 2, 3, 0xee, 0xee, 0xee, 0xee, 0xee][..]);
}

#[test]
fn control_completion_skips_the_setup_header() {
    let context = Context::new(1);
    let handle = DeviceHandle::new(7);
    let t = Transfer::control(
        &handle,
        3,
        0,
        vec![0; 18],
        0x80,
        0x06,
        0x0100,
        0,
        Duration::from_millis(1000),
    );
    let descriptor: Vec<u8> = (100..118).collect();
    let mut t = complete(&context, t, 0, &descriptor);
    assert_eq!(t.status(), TransferStatus::Success);
    assert_eq!(t.actual(), &mut descriptor.clone()[..]);
    assert_eq!(t.actual().len(), 18);
    assert_eq!(&t.buffer()[..8], &[0x80, 0x06, 0x00, 0x01, 0x00, 0x00, 0x12, 0x00]);
    assert_eq!(&t.buffer()[8..], &descriptor[..]);
}

#[test]
fn short_control_completion_leaves_the_rest_of_the_buffer() {
    let context = Context::new(1);
    let handle = DeviceHandle::new(7);
    let t = Transfer::control(&handle, 3, 0, vec![7; 6], 1, 2, 3, 4, Duration::from_millis(5));
    let mut t = complete(&context, t, 0, &[0xaa, 0xbb]);
    assert_eq!(t.actual(), &mut [0xaau8, 0xbb][..]);
    assert_eq!(t.buffer(), &mut [1u8, 2, 3, 0, 4, 0, 6, 0, 0xaa, 0xbb, 7, 7, 7, 7][..]);
}

#[test]
fn completion_stores_no_more_than_the_buffer_holds() {
    let context = Context::new(1);
    let handle = DeviceHandle::new(7);
    let t = Transfer::bulk(&handle, 1, 0x81, vec![0; 4], Duration::from_millis(5));
    let mut t = complete(&context, t, 6, &[1, 2, 3, 4, 5, 6]);
    assert_eq!(t.status(), TransferStatus::Overflow);
    assert_eq!(t.actual(), &mut [1u8, 2, 3, 4][..]);
    assert_eq!(t.buffer(), &mut [1u8, 2, 3, 4][..]);

    let t = Transfer::control(&handle, 2, 0, vec![0; 2], 1, 2, 3, 4, Duration::from_millis(5));
    let mut t = complete(&context, t, 0, &[9, 8, 7]);
    assert_eq!(t.actual(), &mut [9u8, 8][..]);
    assert_eq!(t.buffer(), &mut [1u8, 2, 3, 0, 4, 0, 2, 0, 9, 8][..]);
}

#[test]
fn completion_with_no_data_reports_nothing() {
    let context = Context::new(1);
    let handle = DeviceHandle::new(7);
    let t = Transfer::bulk(&handle, 1, 0x02, vec![5; 4], Duration::from_millis(5));
    let mut t = complete(&context, t, 2, &[]);
    assert_eq!(t.status(), TransferStatus::Timeout);
    assert_eq!(t.actual().len(), 0);
    assert_eq!(t.buffer(), &mut [5u8; 4][..]);
}

#[test]
fn status_maps_each_completion_code() {
    let context = Context::new(1);
    let handle = DeviceHandle::new(7);
    let expected = [
        (0, TransferStatus::Success),
        (1, TransferStatus::Error),
        (2, TransferStatus::Timeout),
        (3, TransferStatus::Cancelled),
        (4, TransferStatus::Stall),
        (5, TransferStatus::NoDevice),
        (6, TransferStatus::Overflow),
        (7, TransferStatus::Unknown),
        (-1, TransferStatus::Unknown),
        (-2, TransferStatus::Unknown),
        (i32::MAX, TransferStatus::Unknown),
        (i32::MIN, TransferStatus::Unknown),
    ];
    for (code, status) in expected {
        let t = Transfer::bulk(&handle, 1, 0x81, vec![0; 4], Duration::from_millis(5));
        let t = complete(&context, t, code, &[]);
        assert_eq!(t.status(), status, "code {}", code);
    }
}

#[test]
fn set_buffer_replaces_the_buffer_and_resets_the_actual_length() {
    let context = Context::new(1);
    let handle = DeviceHandle::new(7);
    let t = Transfer::bulk(&handle, 1, 0x81, vec![0; 4], Duration::from_millis(5));
    let mut t = complete(&context, t, 0, &[1, 2, 3]);
    assert_eq!(t.actual().len(), 3);
    t.set_buffer(vec![10, 20, 30, 40, 50, 60]);
    assert_eq!(t.buffer(), &mut [10u8, 20, 30, 40, 50, 60][..]);
    assert_eq!(t.buffer().len(), 6);
    assert_eq!(t.actual().len(), 0);
    assert_eq!(t.status(), TransferStatus::Success);
    assert_eq!(t.endpoint(), 0x81);
    t.set_buffer(vec![]);
    assert_eq!(t.buffer().len(), 0);
    assert_eq!(t.actual().len(), 0);
}

#[test]
fn set_buffer_on_a_control_transfer_may_drop_the_header() {
    let context = Context::new(1);
    let handle = DeviceHandle::new(7);
    let t = Transfer::control(&handle, 2, 0, vec![0; 4], 1, 2, 3, 4, Duration::from_millis(5));
    let mut t = complete(&context, t, 0, &[9, 8, 7, 6]);
    assert_eq!(t.actual(), &mut [9u8, 8, 7, 6][..]);
    t.set_buffer(vec![1, 2, 3]);
    assert_eq!(t.buffer(), &mut [1u8, 2, 3][..]);
    assert_eq!(t.actual().len(), 0);
    // The payload still starts behind the first eight bytes.
    let mut t = complete(&context, t, 0, &[5]);
    assert_eq!(t.actual().len(), 0);
    assert_eq!(t.buffer(), &mut [1u8, 2, 3][..]);
    t.set_buffer(vec![0; 10]);
    let mut t = complete(&context, t, 0, &[5, 6, 7]);
    assert_eq!(t.actual(), &mut [5u8, 6][..]);
    assert_eq!(t.buffer(), &mut [0u8, 0, 0, 0, 0, 0, 0, 0, 5, 6][..]);
}

#[test]
fn writes_through_buffer_and_actual_reach_the_transfer() {
    let context = Context::new(1);
    let handle = DeviceHandle::new(7);
    let t = Transfer::control(&handle, 2, 0, vec![0; 4], 1, 2, 3, 4, Duration::from_millis(5));
    let mut t = complete(&context, t, 0, &[9, 8, 7]);
    t.actual()[0] = 0x55;
    assert_eq!(t.buffer(), &mut [1u8, 2, 3, 0, 4, 0, 4, 0, 0x55, 8, 7, 0][..]);
    t.buffer()[0] = 0x66;
    t.buffer()[9] = 0x77;
    assert_eq!(t.buffer(), &mut [0x66u8, 2, 3, 0, 4, 0, 4, 0, 0x55, 0x77, 7, 0][..]);
    assert_eq!(t.actual(), &mut [0x55u8, 0x77, 7][..]);
}

#[test]
fn a_completed_transfer_can_be_resubmitted() {
    let context = Context::new(1);
    let handle = DeviceHandle::new(7);
    let t = Transfer::bulk(&handle, 1, 0x81, vec![0; 4], Duration::from_millis(5));
    let t = complete(&context, t, 2, &[1]);
    assert_eq!(t.status(), TransferStatus::Timeout);
    let mut t = complete(&context, t, 0, &[4, 5, 6, 7]);
    assert_eq!(t.status(), TransferStatus::Success);
    assert_eq!(t.actual(), &mut [4u8, 5, 6, 7][..]);
}

//! A single transfer: its descriptor, the buffer it owns, and what the
//! engine reported when it completed.

use vstd::prelude::*;
use core::time::Duration;
use libc::{c_int, c_uchar, c_uint};
use crate::time::{
    duration_secs, duration_subsec_nanos, millis_to_timeout, timeout_millis, timeout_to_millis,
};

verus! {

/// Transfer type of a control transfer.
pub const LIBUSB_TRANSFER_TYPE_CONTROL: c_uchar = 0;

/// Transfer type of a bulk transfer.
pub const LIBUSB_TRANSFER_TYPE_BULK: c_uchar = 2;

/// Transfer type of an interrupt transfer.
pub const LIBUSB_TRANSFER_TYPE_INTERRUPT: c_uchar = 3;

/// Completion code: the transfer completed without error.
pub const LIBUSB_TRANSFER_COMPLETED: c_int = 0;

/// Completion code: the transfer failed.
pub const LIBUSB_TRANSFER_ERROR: c_int = 1;

/// Completion code: the transfer timed out.
pub const LIBUSB_TRANSFER_TIMED_OUT: c_int = 2;

/// Completion code: the transfer was cancelled.
pub const LIBUSB_TRANSFER_CANCELLED: c_int = 3;

/// Completion code: the endpoint stalled, or the control request is not supported.
pub const LIBUSB_TRANSFER_STALL: c_int = 4;

/// Completion code: the device was disconnected.
pub const LIBUSB_TRANSFER_NO_DEVICE: c_int = 5;

/// Completion code: the device sent more data than requested.
pub const LIBUSB_TRANSFER_OVERFLOW: c_int = 6;

/// The status code of a descriptor that the engine has not completed yet.
pub const NO_STATUS: c_int = -1;

/// Length of the setup header that opens the buffer of a control transfer.
pub const CONTROL_SETUP_SIZE: usize = 8;

/// An open device, as the engine identifies it. Transfers borrow the handle
/// of the device they target and cannot outlive it.
#[derive(Debug)]
pub struct DeviceHandle {
    raw: usize,
}

impl DeviceHandle {
    /// The engine's identifier of the device.
    pub closed spec fn raw(&self) -> usize {
        self.raw
    }

    /// Wraps the engine's identifier of an open device.
    pub fn new(raw: usize) -> (handle: DeviceHandle)
        ensures
            handle.raw() == raw,
    {
        DeviceHandle { raw }
    }

    /// The engine's identifier of the device.
    pub fn as_raw(&self) -> (raw: usize)
        ensures
            raw == self.raw(),
    {
        self.raw
    }
}

/// The status of a Transfer returned by wait_any.
#[derive(Debug, Copy, Clone, PartialEq, Eq, Structural)]
pub enum TransferStatus {
    /// Completed without error
    Success,
    /// Failed (IO error)
    Error,
    /// Timed out
    Timeout,
    /// Cancelled
    Cancelled,
    /// Endpoint stalled or control request not supported
    Stall,
    /// Device was disconnected
    NoDevice,
    /// Device sent more data than requested
    Overflow,
    /// No status, not yet submitted
    Unknown,
}

/// The status that a raw completion code stands for. Codes that the engine
/// does not define, among them the one of a transfer that was never
/// submitted, are `Unknown`.
pub open spec fn status_of_code(code: int) -> TransferStatus {
    if code == 0 {
        TransferStatus::Success
    } else if code == 1 {
        TransferStatus::Error
    } else if code == 2 {
        TransferStatus::Timeout
    } else if code == 3 {
        TransferStatus::Cancelled
    } else if code == 4 {
        TransferStatus::Stall
    } else if code == 5 {
        TransferStatus::NoDevice
    } else if code == 6 {
        TransferStatus::Overflow
    } else {
        TransferStatus::Unknown
    }
}

/// The eight bytes that open the buffer of a control transfer: request type,
/// request, then value, index and payload length, each as two bytes, low
/// byte first.
pub open spec fn setup_header(
    request_type: u8,
    request: u8,
    value: u16,
    index: u16,
    length: nat,
) -> Seq<u8> {
    seq![
        request_type,
        request,
        (value % 256) as u8,
        (value / 256) as u8,
        (index % 256) as u8,
        (index / 256) as u8,
        (length % 256) as u8,
        (length / 256 % 256) as u8,
    ]
}

/// A transfer as a mathematical value.
#[verifier::ext_equal]
pub struct TransferView {
    /// The engine's handle of the descriptor; the identity of the transfer.
    pub descriptor: usize,
    /// The engine's identifier of the device that the transfer targets.
    pub device: usize,
    /// The endpoint address.
    pub endpoint: u8,
    /// The transfer type code.
    pub transfer_type: c_uchar,
    /// The timeout in milliseconds.
    pub timeout: c_uint,
    /// The raw completion code; -1 before the first completion.
    pub status: c_int,
    /// The number of bytes that the engine reported as transferred.
    pub actual_length: nat,
    /// The bytes of the buffer.
    pub buffer: Seq<u8>,
}

impl TransferView {
    /// A transfer that was built and never submitted: it has no status, and
    /// nothing counts as transferred.
    pub open spec fn fresh(
        descriptor: usize,
        device: usize,
        endpoint: u8,
        transfer_type: c_uchar,
        buffer: Seq<u8>,
        timeout: c_uint,
    ) -> TransferView {
        TransferView {
            descriptor,
            device,
            endpoint,
            transfer_type,
            timeout,
            status: NO_STATUS,
            actual_length: 0,
            buffer,
        }
    }

    /// A control transfer that was built and never submitted: its buffer is
    /// the setup header followed by the payload.
    pub open spec fn control(
        descriptor: usize,
        device: usize,
        endpoint: u8,
        payload: Seq<u8>,
        request_type: u8,
        request: u8,
        value: u16,
        index: u16,
        timeout: c_uint,
    ) -> TransferView {
        TransferView::fresh(
            descriptor,
            device,
            endpoint,
            LIBUSB_TRANSFER_TYPE_CONTROL,
            setup_header(request_type, request, value, index, payload.len()) + payload,
            timeout,
        )
    }

    /// Where the payload starts in the buffer: behind the setup header for a
    /// control transfer, at the start otherwise.
    pub open spec fn payload_offset(self) -> nat {
        if self.transfer_type == LIBUSB_TRANSFER_TYPE_CONTROL {
            CONTROL_SETUP_SIZE as nat
        } else {
            0
        }
    }

    /// How many payload bytes the buffer can hold.
    pub open spec fn capacity(self) -> nat {
        if self.buffer.len() >= self.payload_offset() {
            (self.buffer.len() - self.payload_offset()) as nat
        } else {
            0
        }
    }

    /// Start and end of the bytes that the engine reported as transferred.
    /// A length that the buffer cannot hold behind the payload offset
    /// reports nothing.
    pub open spec fn actual_range(self) -> (int, int) {
        if self.payload_offset() + self.actual_length <= self.buffer.len() {
            (self.payload_offset() as int, (self.payload_offset() + self.actual_length) as int)
        } else {
            (0, 0)
        }
    }

    /// The bytes that the engine reported as transferred.
    pub open spec fn actual(self) -> Seq<u8> {
        self.buffer.subrange(self.actual_range().0, self.actual_range().1)
    }

    /// The status that the completion code stands for.
    pub open spec fn status(self) -> TransferStatus {
        status_of_code(self.status as int)
    }

    /// The transfer with the bytes of its buffer replaced, the length unchanged.
    pub open spec fn with_contents(self, contents: Seq<u8>) -> TransferView {
        TransferView { buffer: contents, ..self }
    }

    /// The transfer with `bytes` in place of the bytes that the engine
    /// reported as transferred.
    pub open spec fn with_actual(self, bytes: Seq<u8>) -> TransferView {
        self.with_contents(
            self.buffer.subrange(0, self.actual_range().0) + bytes + self.buffer.subrange(
                self.actual_range().1,
                self.buffer.len() as int,
            ),
        )
    }

    /// The transfer after `set_buffer`: it owns the new buffer, and nothing
    /// counts as transferred.
    pub open spec fn with_buffer(self, buffer: Seq<u8>) -> TransferView {
        TransferView { buffer, actual_length: 0, ..self }
    }

    /// How many bytes of `data` a completion stores: all of them, unless the
    /// buffer holds fewer behind the payload offset.
    pub open spec fn stored(self, data: Seq<u8>) -> nat {
        if data.len() <= self.capacity() {
            data.len()
        } else {
            self.capacity()
        }
    }

    /// The transfer after the engine completed it with a status and the
    /// bytes it transferred: the bytes stand at the payload offset, their
    /// number is the actual length, and the rest of the buffer is untouched.
    pub open spec fn completed(self, status: c_int, data: Seq<u8>) -> TransferView {
        let offset = self.payload_offset() as int;
        let stored = self.stored(data) as int;
        TransferView {
            status,
            actual_length: stored as nat,
            buffer: if stored == 0 {
                self.buffer
            } else {
                self.buffer.subrange(0, offset) + data.subrange(0, stored) + self.buffer.subrange(
                    offset + stored,
                    self.buffer.len() as int,
                )
            },
            ..self
        }
    }
}

/// `Vec::shrink_to_fit`: drops the capacity that the vector does not use.
/// Not proved: the elements are taken to stay as they are.
#[verifier::external_body]
fn shrink_to_fit(buffer: &mut Vec<u8>)
    ensures
        final(buffer)@ == old(buffer)@,
{
    buffer.shrink_to_fit()
}

/// The fields of a transfer that the engine reads and writes.
#[derive(Debug)]
struct TransferDescriptor {
    id: usize,
    endpoint: c_uchar,
    transfer_type: c_uchar,
    timeout: c_uint,
    status: c_int,
    actual_length: usize,
}

/// An asynchronous transfer that is not currently pending.
/// Specifies the data necessary to perform a transfer on a specified endpoint, and holds the
/// result of a completed transfer. A completed Transfer can be resubmitted.
#[derive(Debug)]
pub struct Transfer<'d> {
    handle: &'d DeviceHandle,
    buffer: Vec<u8>,
    transfer: TransferDescriptor,
}

impl<'d> View for Transfer<'d> {
    type V = TransferView;

    closed spec fn view(&self) -> TransferView {
        TransferView {
            descriptor: self.transfer.id,
            device: self.handle.raw(),
            endpoint: self.transfer.endpoint,
            transfer_type: self.transfer.transfer_type,
            timeout: self.transfer.timeout,
            status: self.transfer.status,
            actual_length: self.transfer.actual_length as nat,
            buffer: self.buffer@,
        }
    }
}

impl<'d> Transfer<'d> {
    /// Builds a transfer of the given type around a descriptor that the
    /// engine allocated: it has no status yet, nothing counts as
    /// transferred, and the buffer keeps no more memory than it fills.
    fn new(
        handle: &'d DeviceHandle,
        descriptor: usize,
        endpoint: u8,
        transfer_type: c_uchar,
        buffer: Vec<u8>,
        timeout: Duration,
    ) -> (t: Transfer<'d>)
        ensures
            t@ == TransferView::fresh(
                descriptor,
                handle.raw(),
                endpoint,
                transfer_type,
                buffer@,
                timeout_millis(timeout) as c_uint,
            ),
    {
        let timeout_ms = timeout_to_millis(timeout);
        let mut buffer = buffer;
        shrink_to_fit(&mut buffer);
        Transfer {
            handle,
            buffer,
            transfer: TransferDescriptor {
                id: descriptor,
                endpoint,
                transfer_type,
                timeout: timeout_ms,
                status: NO_STATUS,
                actual_length: 0,
            },
        }
    }

    /// Creates an asynchronous bulk transfer around a descriptor that the
    /// engine allocated, but does not submit it.
    pub fn bulk(
        handle: &'d DeviceHandle,
        descriptor: usize,
        endpoint: u8,
        buffer: Vec<u8>,
        timeout: Duration,
    ) -> (t: Transfer<'d>)
        ensures
            t@ == TransferView::fresh(
                descriptor,
                handle.raw(),
                endpoint,
                LIBUSB_TRANSFER_TYPE_BULK,
                buffer@,
                timeout_millis(timeout) as c_uint,
            ),
    {
        Transfer::new(handle, descriptor, endpoint, LIBUSB_TRANSFER_TYPE_BULK, buffer, timeout)
    }

    /// Creates an asynchronous interrupt transfer around a descriptor that
    /// the engine allocated, but does not submit it.
    pub fn interrupt(
        handle: &'d DeviceHandle,
        descriptor: usize,
        endpoint: u8,
        buffer: Vec<u8>,
        timeout: Duration,
    ) -> (t: Transfer<'d>)
        ensures
            t@ == TransferView::fresh(
                descriptor,
                handle.raw(),
                endpoint,
                LIBUSB_TRANSFER_TYPE_INTERRUPT,
                buffer@,
                timeout_millis(timeout) as c_uint,
            ),
    {
        Transfer::new(handle, descriptor, endpoint, LIBUSB_TRANSFER_TYPE_INTERRUPT, buffer, timeout)
    }

    /// Creates an asynchronous control transfer around a descriptor that the
    /// engine allocated, but does not submit it.
    /// In difference to the other functions, this function takes additional arguments,
    /// the ones of the setup header, which it puts in front of the payload.
    pub fn control(
        handle: &'d DeviceHandle,
        descriptor: usize,
        endpoint: u8,
        buffer: Vec<u8>,
        request_type: u8,
        request: u8,
        value: u16,
        index: u16,
        timeout: Duration,
    ) -> (t: Transfer<'d>)
        ensures
            t@ == TransferView::control(
                descriptor,
                handle.raw(),
                endpoint,
                buffer@,
                request_type,
                request,
                value,
                index,
                timeout_millis(timeout) as c_uint,
            ),
    {
        let len: usize = buffer.len();
        let length: u16 = len as u16;
        let mut payload = buffer;
        let mut vec: Vec<u8> = Vec::new();
        vec.push(request_type);
        vec.push(request);
        vec.push((value & 0xff) as u8);
        vec.push((value >> 8) as u8);
        vec.push((index & 0xff) as u8);
        vec.push((index >> 8) as u8);
        vec.push((length & 0xff) as u8);
        vec.push((length >> 8) as u8);
        proof {
            assert((value & 0xff) as u8 == (value % 256) as u8 && (value >> 8) as u8 == (value
                / 256) as u8) by (bit_vector);
            assert((index & 0xff) as u8 == (index % 256) as u8 && (index >> 8) as u8 == (index
                / 256) as u8) by (bit_vector);
            assert((length & 0xff) as u8 == (len % 256) as u8 && (length >> 8) as u8 == (len / 256
                % 256) as u8) by (bit_vector)
                requires
                    length == len as u16,
            ;
            assert(vec@ =~= setup_header(request_type, request, value, index, buffer@.len()));
        }
        vec.append(&mut payload);
        Transfer::new(handle, descriptor, endpoint, LIBUSB_TRANSFER_TYPE_CONTROL, vec, timeout)
    }

    /// The engine's handle of the descriptor that the transfer is built around.
    pub fn descriptor(&self) -> (descriptor: usize)
        ensures
            descriptor == self@.descriptor,
    {
        self.transfer.id
    }

    /// The handle of the device that the transfer targets.
    pub fn device(&self) -> (handle: &'d DeviceHandle)
        ensures
            handle.raw() == self@.device,
    {
        self.handle
    }

    /// The transfer type code of the descriptor.
    pub fn transfer_type(&self) -> (transfer_type: c_uchar)
        ensures
            transfer_type == self@.transfer_type,
    {
        self.transfer.transfer_type
    }

    /// The endpoint address.
    pub fn endpoint(&self) -> (endpoint: u8)
        ensures
            endpoint == self@.endpoint,
    {
        self.transfer.endpoint
    }

    /// The timeout in milliseconds, as the descriptor stores it.
    pub fn timeout_ms(&self) -> (timeout: c_uint)
        ensures
            timeout == self@.timeout,
    {
        self.transfer.timeout
    }

    /// The timeout, in the whole milliseconds that the descriptor stores.
    pub fn timeout(&self) -> (timeout: Duration)
        ensures
            duration_secs(timeout) == self@.timeout / 1000,
            duration_subsec_nanos(timeout) == (self@.timeout % 1000) * 1_000_000,
            timeout_millis(timeout) == self@.timeout,
    {
        millis_to_timeout(self.transfer.timeout)
    }

    /// Gets the status of a completed transfer.
    pub fn status(&self) -> (status: TransferStatus)
        ensures
            status == self@.status(),
    {
        let code = self.transfer.status;
        if code == LIBUSB_TRANSFER_COMPLETED {
            TransferStatus::Success
        } else if code == LIBUSB_TRANSFER_ERROR {
            TransferStatus::Error
        } else if code == LIBUSB_TRANSFER_TIMED_OUT {
            TransferStatus::Timeout
        } else if code == LIBUSB_TRANSFER_CANCELLED {
            TransferStatus::Cancelled
        } else if code == LIBUSB_TRANSFER_STALL {
            TransferStatus::Stall
        } else if code == LIBUSB_TRANSFER_NO_DEVICE {
            TransferStatus::NoDevice
        } else if code == LIBUSB_TRANSFER_OVERFLOW {
            TransferStatus::Overflow
        } else {
            TransferStatus::Unknown
        }
    }

    /// Access the buffer of a transfer.
    pub fn buffer(&mut self) -> (buffer: &mut [u8])
        ensures
            buffer@ == old(self)@.buffer,
            final(self)@ == old(self)@.with_contents(final(buffer)@),
    {
        self.buffer.as_mut_slice()
    }

    /// Replace the buffer of a transfer.
    pub fn set_buffer(&mut self, buffer: Vec<u8>)
        ensures
            final(self)@ == old(self)@.with_buffer(buffer@),
    {
        self.transfer.actual_length = 0;
        self.buffer = buffer;
    }

    /// Access the slice of the buffer containing actual data received on an IN transfer.
    pub fn actual(&mut self) -> (actual: &mut [u8])
        ensures
            actual@ == old(self)@.actual(),
            final(self)@ == old(self)@.with_actual(final(actual)@),
    {
        // if this is a control request, the first 8 bytes of the buffer are
        // the setup header
        let offset: usize = if self.transfer.transfer_type == LIBUSB_TRANSFER_TYPE_CONTROL {
            CONTROL_SETUP_SIZE
        } else {
            0
        };
        let len: usize = self.buffer.len();
        let n: usize = self.transfer.actual_length;
        let fits = offset <= len && n <= len - offset;
        let start: usize = if fits { offset } else { 0 };
        let count: usize = if fits { n } else { 0 };
        let ghost whole = self.buffer@;
        let (head, rest) = self.buffer.as_mut_slice().split_at_mut(start);
        let (actual, tail) = rest.split_at_mut(count);
        proof {
            assert(actual@ =~= whole.subrange(start as int, start + count));
            let written = final(actual)@;
            assert(head@ + (written + tail@) =~= whole.subrange(0, start as int) + written
                + whole.subrange(start + count, whole.len() as int));
        }
        actual
    }

    /// Records what the engine reported when it completed the transfer.
    pub(crate) fn finish(&mut self, status: c_int, data: &[u8])
        ensures
            final(self)@ == old(self)@.completed(status, data@),
    {
        let offset: usize = if self.transfer.transfer_type == LIBUSB_TRANSFER_TYPE_CONTROL {
            CONTROL_SETUP_SIZE
        } else {
            0
        };
        let len: usize = self.buffer.len();
        let capacity: usize = if len >= offset { len - offset } else { 0 };
        let stored: usize = if data.len() <= capacity { data.len() } else { capacity };
        if stored > 0 {
            let mut i: usize = 0;
            while i < stored
                invariant
                    i <= stored,
                    stored <= data@.len(),
                    offset + stored <= len,
                    len == old(self).buffer@.len(),
                    self.handle == old(self).handle,
                    self.transfer == old(self).transfer,
                    self.buffer@ =~= old(self).buffer@.subrange(0, offset as int)
                        + data@.subrange(0, i as int) + old(self).buffer@.subrange(
                        offset + i,
                        len as int,
                    ),
                decreases stored - i,
            {
                self.buffer.set(offset + i, data[i]);
                i = i + 1;
            }
        }
        self.transfer.status = status;
        self.transfer.actual_length = stored;
    }
}

} // verus!

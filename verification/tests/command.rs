use mdr_flash::com_port;
use mdr_flash::com_port::{ComPort, IOMethods};
use mdr_flash::command::{
    boot_load, check_erase, check_port, checksum, erase, program, read_baud_rate, read_info,
    set_baud_rate, verify, write_program_chunk, Ack, Error,
};
use mdr_flash::firmware::HexFile;

/// A transport that records what is written and answers reads from a list.
struct Scripted {
    written: Vec<Vec<u8>>,
    asked: Vec<usize>,
    replies: Vec<Option<Vec<u8>>>,
    fail_write: Option<usize>,
}

impl Scripted {
    fn new(replies: Vec<Option<Vec<u8>>>) -> Scripted {
        Scripted { written: Vec::new(), asked: Vec::new(), replies, fail_write: None }
    }

    fn failing_write(index: usize, replies: Vec<Option<Vec<u8>>>) -> Scripted {
        Scripted { written: Vec::new(), asked: Vec::new(), replies, fail_write: Some(index) }
    }
}

fn write_failed() -> Error {
    Error::SerialPort(com_port::Error::Io(String::from("write failed")))
}

fn timed_out() -> Error {
    Error::SerialPort(com_port::Error::Io(String::from("timed out")))
}

impl IOMethods for Scripted {
    fn write_buf(&mut self, buf: Vec<u8>) -> Result<(), com_port::Error> {
        let index = self.written.len();
        self.written.push(buf);
        if self.fail_write == Some(index) {
            Err(com_port::Error::Io(String::from("write failed")))
        } else {
            Ok(())
        }
    }

    fn read_buf(&mut self, len: usize) -> Result<Vec<u8>, com_port::Error> {
        let index = self.asked.len();
        self.asked.push(len);
        match self.replies.get(index) {
            Some(Some(bytes)) => Ok(bytes.clone()),
            _ => Err(com_port::Error::Io(String::from("timed out"))),
        }
    }
}

/// A device that takes the flash address and chunks, answers each chunk
/// with its checksum, and reads its flash back eight bytes at a time.
struct Device {
    written: Vec<Vec<u8>>,
    asked: Vec<usize>,
    flash: Vec<u8>,
    chunks: usize,
    wrong_sum_at: Option<usize>,
    read_at: usize,
}

impl Device {
    fn new() -> Device {
        Device {
            written: Vec::new(),
            asked: Vec::new(),
            flash: Vec::new(),
            chunks: 0,
            wrong_sum_at: None,
            read_at: 0,
        }
    }

    fn with_flash(flash: Vec<u8>) -> Device {
        let mut device = Device::new();
        device.flash = flash;
        device
    }
}

impl IOMethods for Device {
    fn write_buf(&mut self, buf: Vec<u8>) -> Result<(), com_port::Error> {
        if buf.len() == 256 {
            self.flash.extend_from_slice(&buf);
            self.chunks += 1;
        }
        self.written.push(buf);
        Ok(())
    }

    fn read_buf(&mut self, len: usize) -> Result<Vec<u8>, com_port::Error> {
        self.asked.push(len);
        let last = self.written.last().cloned().unwrap_or_default();
        if len == 8 {
            let mut block = vec![0xEEu8; 8];
            for (i, byte) in block.iter_mut().enumerate() {
                if let Some(stored) = self.flash.get(self.read_at + i) {
                    *byte = *stored;
                }
            }
            self.read_at += 8;
            Ok(block)
        } else if last.len() == 256 {
            let sum = last.iter().fold(0u8, |acc, byte| acc.wrapping_add(*byte));
            if self.wrong_sum_at == Some(self.chunks - 1) {
                Ok(vec![sum.wrapping_add(1)])
            } else {
                Ok(vec![sum])
            }
        } else {
            Ok(vec![0x08])
        }
    }
}

fn image(addr: u32, len: usize) -> HexFile {
    let bytes: Vec<u8> = (0..len).map(|i| (i * 7 + 3) as u8).collect();
    HexFile::new(addr, bytes).unwrap()
}

fn sent_chunks(written: &[Vec<u8>]) -> Vec<Vec<u8>> {
    written.iter().filter(|buf| buf.len() == 256).cloned().collect()
}

#[test]
fn check_port_sends_zeros_and_reads_three_bytes() {
    let mut port = ComPort::new(Scripted::new(vec![Some(vec![1, 2, 3])]));
    assert_eq!(check_port(&mut port), Ok(()));
    let transport = port.into_inner();
    assert_eq!(transport.written, vec![vec![0u8; 512]]);
    assert_eq!(transport.asked, vec![3]);
}

#[test]
fn check_port_takes_any_three_bytes() {
    for reply in [vec![0u8, 0, 0], vec![0xFF, 0xFF, 0xFF], vec![0x0D, 0x0A, 0x3E]] {
        let mut port = ComPort::new(Scripted::new(vec![Some(reply)]));
        assert_eq!(check_port(&mut port), Ok(()));
    }
}

#[test]
fn check_port_fails_when_the_write_fails() {
    let mut port = ComPort::new(Scripted::failing_write(0, vec![Some(vec![1, 2, 3])]));
    assert_eq!(check_port(&mut port), Err(write_failed()));
    assert!(port.into_inner().asked.is_empty());
}

#[test]
fn check_port_fails_when_the_read_fails() {
    let mut port = ComPort::new(Scripted::new(vec![None]));
    assert_eq!(check_port(&mut port), Err(timed_out()));
    assert_eq!(port.into_inner().written.len(), 1);
}

#[test]
fn check_port_fails_on_a_short_reply() {
    let mut port = ComPort::new(Scripted::new(vec![Some(vec![1, 2])]));
    assert_eq!(
        check_port(&mut port),
        Err(Error::SerialPort(com_port::Error::Short { wanted: 3, got: 2 }))
    );
}

#[test]
fn set_baud_rate_sends_the_rate() {
    let mut port = ComPort::new(Scripted::new(vec![Some(vec![0x55])]));
    assert_eq!(set_baud_rate(&mut port, 115200), Ok(()));
    let transport = port.into_inner();
    assert_eq!(transport.written, vec![vec![0x42u8], vec![0x00, 0xC2, 0x01, 0x00], vec![0x0D]]);
    assert_eq!(transport.asked, vec![1]);
}

#[test]
fn set_baud_rate_stops_at_the_first_failure() {
    let mut port = ComPort::new(Scripted::failing_write(1, vec![Some(vec![0])]));
    assert_eq!(set_baud_rate(&mut port, 9600), Err(write_failed()));
    let transport = port.into_inner();
    assert_eq!(transport.written, vec![vec![0x42u8], vec![0x80, 0x25, 0x00, 0x00]]);
    assert!(transport.asked.is_empty());

    let mut port = ComPort::new(Scripted::new(vec![None]));
    assert_eq!(set_baud_rate(&mut port, 9600), Err(timed_out()));
}

#[test]
fn read_baud_rate_takes_the_prompt() {
    let mut port = ComPort::new(Scripted::new(vec![Some(vec![0x0D, 0x0A, 0x3E])]));
    assert_eq!(read_baud_rate(&mut port), Ok(vec![0x0Du8, 0x0A, 0x3E]));
    let transport = port.into_inner();
    assert_eq!(transport.written, vec![vec![0x0Du8]]);
    assert_eq!(transport.asked, vec![3]);
}

#[test]
fn read_baud_rate_refuses_another_reply() {
    let mut port = ComPort::new(Scripted::new(vec![Some(vec![0x0D, 0x0A, 0x00])]));
    assert_eq!(
        read_baud_rate(&mut port),
        Err(Error::Protocol { ack: Ack::BaudRate, reply: vec![0x0D, 0x0A, 0x00] })
    );
    let mut port = ComPort::new(Scripted::new(vec![Some(vec![0x3E, 0x0A, 0x0D])]));
    assert_eq!(
        read_baud_rate(&mut port),
        Err(Error::Protocol { ack: Ack::BaudRate, reply: vec![0x3E, 0x0A, 0x0D] })
    );
}

#[test]
fn read_baud_rate_fails_with_the_transport() {
    let mut port = ComPort::new(Scripted::failing_write(0, Vec::new()));
    assert_eq!(read_baud_rate(&mut port), Err(write_failed()));
    let mut port = ComPort::new(Scripted::new(vec![Some(vec![0x0D, 0x0A])]));
    assert_eq!(
        read_baud_rate(&mut port),
        Err(Error::SerialPort(com_port::Error::Short { wanted: 3, got: 2 }))
    );
}

fn read_back(first: u8, last: u8) -> Option<Vec<u8>> {
    Some(vec![first, 1, 2, 3, 4, 5, 6, 7, 8, last])
}

#[test]
fn boot_load_runs_its_four_stages() {
    let replies = vec![Some(vec![b'L']), Some(vec![b'K']), read_back(b'Y', b'K'), Some(vec![b'R'])];
    let mut port = ComPort::new(Scripted::new(replies));
    let loader = HexFile::new(0x2000_0000, vec![0xDE, 0xAD, 0xBE, 0xEF, 0x01]).unwrap();
    assert_eq!(boot_load(&mut port, loader), Ok(()));
    let transport = port.into_inner();
    assert_eq!(
        transport.written,
        vec![
            vec![b'L'],
            vec![0x00, 0x00, 0x00, 0x20],
            vec![0x05, 0x00, 0x00, 0x00],
            vec![0xDE, 0xAD, 0xBE, 0xEF, 0x01],
            vec![b'Y'],
            vec![0x00, 0x00, 0x00, 0x20],
            vec![0x08, 0x00, 0x00, 0x00],
            vec![b'R'],
            vec![0x00, 0x00, 0x00, 0x20],
            vec![0x05, 0x00, 0x00, 0x00],
        ]
    );
    assert_eq!(transport.asked, vec![1, 1, 10, 1]);
}

#[test]
fn boot_load_stops_at_a_wrong_header_ack() {
    let mut port = ComPort::new(Scripted::new(vec![Some(vec![b'X'])]));
    let loader = HexFile::new(0x2000_0000, vec![1, 2]).unwrap();
    assert_eq!(
        boot_load(&mut port, loader),
        Err(Error::Protocol { ack: Ack::LoadHeader, reply: vec![b'X'] })
    );
    assert_eq!(port.into_inner().written.len(), 3);
}

#[test]
fn boot_load_stops_at_a_wrong_body_ack() {
    let mut port = ComPort::new(Scripted::new(vec![Some(vec![b'L']), Some(vec![b'L'])]));
    let loader = HexFile::new(0x2000_0000, vec![1, 2]).unwrap();
    assert_eq!(
        boot_load(&mut port, loader),
        Err(Error::Protocol { ack: Ack::LoadBody, reply: vec![b'L'] })
    );
    assert_eq!(port.into_inner().written.len(), 4);
}

#[test]
fn boot_load_wants_both_ends_of_the_read_back() {
    for (first, last) in [(b'Y', b'X'), (b'X', b'K'), (b'K', b'Y'), (0, 0)] {
        let replies = vec![Some(vec![b'L']), Some(vec![b'K']), read_back(first, last), Some(vec![b'R'])];
        let mut port = ComPort::new(Scripted::new(replies));
        let loader = HexFile::new(0x2000_0000, vec![1, 2]).unwrap();
        assert_eq!(
            boot_load(&mut port, loader),
            Err(Error::Protocol { ack: Ack::LoadCheck, reply: read_back(first, last).unwrap() })
        );
        let transport = port.into_inner();
        assert_eq!(transport.written.len(), 7);
        assert_eq!(transport.asked, vec![1, 1, 10]);
    }
}

#[test]
fn boot_load_stops_at_a_wrong_run_ack() {
    let replies = vec![Some(vec![b'L']), Some(vec![b'K']), read_back(b'Y', b'K'), Some(vec![b'r'])];
    let mut port = ComPort::new(Scripted::new(replies));
    let loader = HexFile::new(0x2000_0000, vec![1, 2]).unwrap();
    assert_eq!(
        boot_load(&mut port, loader),
        Err(Error::Protocol { ack: Ack::LoadRun, reply: vec![b'r'] })
    );
}

#[test]
fn boot_load_fails_with_the_transport() {
    let replies = vec![Some(vec![b'L']), Some(vec![b'K']), None];
    let mut port = ComPort::new(Scripted::new(replies));
    let loader = HexFile::new(0x2000_0000, vec![1, 2]).unwrap();
    assert_eq!(boot_load(&mut port, loader), Err(timed_out()));

    let mut port = ComPort::new(Scripted::failing_write(3, vec![Some(vec![b'L'])]));
    let loader = HexFile::new(0x2000_0000, vec![1, 2]).unwrap();
    assert_eq!(boot_load(&mut port, loader), Err(write_failed()));
    assert_eq!(port.into_inner().asked, vec![1]);
}

#[test]
fn read_info_returns_the_identity() {
    let mut port = ComPort::new(Scripted::new(vec![Some(b"1986BOOTUART".to_vec())]));
    assert_eq!(read_info(&mut port), Ok(String::from("1986BOOTUART")));
    let transport = port.into_inner();
    assert_eq!(transport.written, vec![vec![b'I']]);
    assert_eq!(transport.asked, vec![12]);
}

#[test]
fn read_info_does_not_judge_the_identity() {
    let mut port = ComPort::new(Scripted::new(vec![Some(b"SOMETHINGELS".to_vec())]));
    assert_eq!(read_info(&mut port), Ok(String::from("SOMETHINGELS")));
    let mut port = ComPort::new(Scripted::new(vec![Some(vec![0xFF; 12])]));
    assert_eq!(read_info(&mut port), Ok("\u{FFFD}".repeat(12)));
}

#[test]
fn read_info_fails_with_the_transport() {
    let mut port = ComPort::new(Scripted::new(vec![Some(b"1986BOOT".to_vec())]));
    assert_eq!(
        read_info(&mut port),
        Err(Error::SerialPort(com_port::Error::Short { wanted: 12, got: 8 }))
    );
    let mut port = ComPort::new(Scripted::failing_write(0, Vec::new()));
    assert_eq!(read_info(&mut port), Err(write_failed()));
}

fn erase_replies(ack: u8, addr: u32, data: u32) -> Vec<Option<Vec<u8>>> {
    vec![Some(vec![ack]), Some(addr.to_le_bytes().to_vec()), Some(data.to_le_bytes().to_vec())]
}

#[test]
fn erase_takes_the_end_of_flash_and_an_erased_word() {
    let mut port = ComPort::new(Scripted::new(erase_replies(b'E', 0x0802_0000, 0xFFFF_FFFF)));
    assert_eq!(erase(&mut port), Ok(()));
    let transport = port.into_inner();
    assert_eq!(transport.written, vec![vec![b'E']]);
    assert_eq!(transport.asked, vec![1, 4, 4]);
}

#[test]
fn erase_refuses_any_other_report() {
    let pairs = [
        (0x0802_0000u32, 0x0000_0000u32),
        (0x0802_0000, 0xFFFF_FFFE),
        (0x0801_FFFC, 0xFFFF_FFFF),
        (0xFFFF_FFFF, 0x0802_0000),
        (0, 0),
    ];
    for (addr, data) in pairs {
        let mut port = ComPort::new(Scripted::new(erase_replies(b'E', addr, data)));
        assert_eq!(erase(&mut port), Err(Error::Erase { addr, data }));
        assert_eq!(port.into_inner().asked, vec![1, 4, 4]);
    }
}

#[test]
fn check_erase_judges_the_pair() {
    assert_eq!(check_erase(0x0802_0000, 0xFFFF_FFFF), Ok(()));
    assert_eq!(
        check_erase(0x0802_0000, 0),
        Err(Error::Erase { addr: 0x0802_0000, data: 0 })
    );
    assert_eq!(
        check_erase(0x0802_0001, 0xFFFF_FFFF),
        Err(Error::Erase { addr: 0x0802_0001, data: 0xFFFF_FFFF })
    );
}

#[test]
fn erase_stops_at_a_wrong_ack() {
    let mut port = ComPort::new(Scripted::new(erase_replies(b'e', 0x0802_0000, 0xFFFF_FFFF)));
    assert_eq!(erase(&mut port), Err(Error::Protocol { ack: Ack::Erase, reply: vec![b'e'] }));
    assert_eq!(port.into_inner().asked, vec![1]);
}

#[test]
fn erase_fails_with_the_transport() {
    let mut port = ComPort::new(Scripted::new(vec![Some(vec![b'E']), Some(vec![0, 0, 2, 8]), None]));
    assert_eq!(erase(&mut port), Err(timed_out()));
    let mut port = ComPort::new(Scripted::new(vec![Some(vec![b'E']), Some(vec![0, 0, 2])]));
    assert_eq!(
        erase(&mut port),
        Err(Error::SerialPort(com_port::Error::Short { wanted: 4, got: 3 }))
    );
}

#[test]
fn program_sends_600_bytes_as_three_chunks() {
    let firmware = image(0x0800_0000, 600);
    let mut port = ComPort::new(Device::new());
    assert_eq!(program(&mut port, &firmware), Ok(()));
    let device = port.into_inner();

    let bytes = firmware.buf();
    let mut last = bytes[512..].to_vec();
    assert_eq!(last.len(), 88);
    last.resize(256, 0);
    assert_eq!(
        device.written,
        vec![
            vec![b'A'],
            vec![0x00, 0x00, 0x00, 0x08],
            vec![b'P'],
            bytes[..256].to_vec(),
            vec![b'P'],
            bytes[256..512].to_vec(),
            vec![b'P'],
            last,
        ]
    );
    assert_eq!(device.asked, vec![1, 1, 1, 1]);
    assert_eq!(sent_chunks(&device.written).len(), 3);
}

#[test]
fn program_checks_the_checksum_of_the_padded_chunk() {
    let firmware = HexFile::new(0x0800_0000, vec![0x12, 0x34, 0x56]).unwrap();
    let mut padded = vec![0x12u8, 0x34, 0x56];
    padded.resize(256, 0);
    let sum = checksum(&padded);
    assert_eq!(sum, 0x9C);

    let mut port = ComPort::new(Scripted::new(vec![Some(vec![0x08]), Some(vec![sum])]));
    assert_eq!(program(&mut port, &firmware), Ok(()));
    assert_eq!(port.into_inner().written[3], padded);

    let mut port = ComPort::new(Scripted::new(vec![Some(vec![0x08]), Some(vec![0x9D])]));
    assert_eq!(
        program(&mut port, &firmware),
        Err(Error::Checksum { chunk: 0, expected: 0x9C, actual: 0x9D })
    );
}

#[test]
fn program_stops_at_the_first_wrong_checksum() {
    let firmware = image(0x0800_0000, 600);
    let mut device = Device::new();
    device.wrong_sum_at = Some(1);
    let mut port = ComPort::new(device);
    let expected = checksum(&firmware.buf()[256..512]);
    assert_eq!(
        program(&mut port, &firmware),
        Err(Error::Checksum { chunk: 1, expected, actual: expected.wrapping_add(1) })
    );
    let device = port.into_inner();
    assert_eq!(sent_chunks(&device.written).len(), 2);
    assert_eq!(device.written.len(), 6);
    assert_eq!(device.asked, vec![1, 1, 1]);
}

#[test]
fn program_of_an_empty_image_only_sets_the_address() {
    let firmware = HexFile::new(0x0800_1000, Vec::new()).unwrap();
    let mut port = ComPort::new(Device::new());
    assert_eq!(program(&mut port, &firmware), Ok(()));
    let device = port.into_inner();
    assert_eq!(device.written, vec![vec![b'A'], vec![0x00, 0x10, 0x00, 0x08]]);
    assert_eq!(device.asked, vec![1]);
}

#[test]
fn program_does_not_pad_a_full_chunk() {
    for (len, chunks) in [(1usize, 1usize), (255, 1), (256, 1), (257, 2), (512, 2), (513, 3)] {
        let firmware = image(0x0800_0000, len);
        let mut port = ComPort::new(Device::new());
        assert_eq!(program(&mut port, &firmware), Ok(()));
        let device = port.into_inner();
        assert_eq!(sent_chunks(&device.written).len(), chunks);
        assert_eq!(device.written.len(), 2 + 2 * chunks);
        assert_eq!(&device.flash[..len], &firmware.buf()[..]);
        assert!(device.flash[len..].iter().all(|byte| *byte == 0));
        assert_eq!(device.flash.len(), 256 * chunks);
    }
}

#[test]
fn program_stops_when_the_address_is_not_taken() {
    let firmware = image(0x0800_0000, 10);
    let mut port = ComPort::new(Scripted::new(vec![Some(vec![0x09])]));
    assert_eq!(
        program(&mut port, &firmware),
        Err(Error::Protocol { ack: Ack::FlashAddress, reply: vec![0x09] })
    );
    assert_eq!(port.into_inner().written.len(), 2);
}

#[test]
fn program_fails_with_the_transport() {
    let firmware = image(0x0800_0000, 300);
    let mut port = ComPort::new(Scripted::new(vec![Some(vec![0x08]), None]));
    assert_eq!(program(&mut port, &firmware), Err(timed_out()));
    assert_eq!(port.into_inner().written.len(), 4);

    let mut port = ComPort::new(Scripted::failing_write(3, vec![Some(vec![0x08])]));
    assert_eq!(program(&mut port, &firmware), Err(write_failed()));
    assert_eq!(port.into_inner().asked, vec![1]);
}

#[test]
fn verify_reads_the_image_back_in_blocks() {
    let firmware = image(0x0800_0000, 600);
    let mut port = ComPort::new(Device::with_flash(firmware.buf().clone()));
    assert_eq!(verify(&mut port, &firmware), Ok(()));
    let device = port.into_inner();
    assert_eq!(device.written.len(), 2 + 75);
    assert_eq!(device.written[0], vec![b'A']);
    assert_eq!(device.written[1], vec![0x00, 0x00, 0x00, 0x08]);
    assert!(device.written[2..].iter().all(|buf| buf == &vec![b'V']));
    assert_eq!(device.asked.len(), 1 + 75);
    assert_eq!(device.asked[0], 1);
    assert!(device.asked[1..].iter().all(|len| *len == 8));
}

#[test]
fn verify_compares_only_what_is_left_of_the_last_block() {
    let firmware = image(0x0800_0000, 13);
    let mut port = ComPort::new(Device::with_flash(firmware.buf().clone()));
    assert_eq!(verify(&mut port, &firmware), Ok(()));
    let device = port.into_inner();
    assert_eq!(device.asked, vec![1, 8, 8]);
}

#[test]
fn verify_names_the_first_byte_that_differs() {
    for at in [0usize, 7, 8, 255, 256, 300, 599] {
        let firmware = image(0x0800_0000, 600);
        let mut flash = firmware.buf().clone();
        flash[at] ^= 0x40;
        if at + 1 < flash.len() {
            flash[at + 1] ^= 0x01;
        }
        let mut port = ComPort::new(Device::with_flash(flash));
        assert_eq!(verify(&mut port, &firmware), Err(Error::Verify { offset: at }));
        let device = port.into_inner();
        assert_eq!(device.asked.len(), 1 + at / 8 + 1);
    }
}

#[test]
fn verify_of_an_empty_image_only_sets_the_address() {
    let firmware = HexFile::new(0x0800_0000, Vec::new()).unwrap();
    let mut port = ComPort::new(Device::new());
    assert_eq!(verify(&mut port, &firmware), Ok(()));
    assert_eq!(port.into_inner().asked, vec![1]);
}

#[test]
fn verify_stops_when_the_address_is_not_taken() {
    let firmware = image(0x0800_0000, 10);
    let mut port = ComPort::new(Scripted::new(vec![Some(vec![0x00])]));
    assert_eq!(
        verify(&mut port, &firmware),
        Err(Error::Protocol { ack: Ack::FlashAddress, reply: vec![0x00] })
    );
}

#[test]
fn verify_fails_with_the_transport() {
    let firmware = image(0x0800_0000, 10);
    let mut port = ComPort::new(Scripted::new(vec![Some(vec![0x08]), Some(vec![3, 10, 17])]));
    assert_eq!(
        verify(&mut port, &firmware),
        Err(Error::SerialPort(com_port::Error::Short { wanted: 8, got: 3 }))
    );
    let mut port = ComPort::new(Scripted::failing_write(2, vec![Some(vec![0x08])]));
    assert_eq!(verify(&mut port, &firmware), Err(write_failed()));
}

#[test]
fn programmed_image_verifies() {
    let firmware = image(0x0800_0000, 777);
    let mut port = ComPort::new(Device::new());
    assert_eq!(program(&mut port, &firmware), Ok(()));
    assert_eq!(verify(&mut port, &firmware), Ok(()));
}

#[test]
fn chunk_goes_out_padded_and_is_answered_by_its_checksum() {
    for len in [0usize, 1, 44, 88, 255, 256] {
        let chunk: Vec<u8> = (0..len).map(|i| (i * 13 + 5) as u8).collect();
        let mut padded = chunk.clone();
        padded.resize(256, 0);
        let sum = checksum(&padded);

        let mut port = ComPort::new(Scripted::new(vec![Some(vec![sum])]));
        assert_eq!(write_program_chunk(&mut port, &chunk, 4), Ok(()));
        let transport = port.into_inner();
        assert_eq!(transport.written, vec![vec![0x50u8], padded.clone()]);
        assert_eq!(transport.written.concat().len(), 257);
        assert_eq!(transport.asked, vec![1]);

        let wrong = sum.wrapping_add(0x80);
        let mut port = ComPort::new(Scripted::new(vec![Some(vec![wrong])]));
        assert_eq!(
            write_program_chunk(&mut port, &chunk, 4),
            Err(Error::Checksum { chunk: 4, expected: sum, actual: wrong })
        );
        assert_eq!(port.into_inner().written, vec![vec![0x50u8], padded]);
    }
}

#[test]
fn chunk_checksum_is_that_of_the_chunk_alone() {
    let chunk = [0xF0u8, 0x20, 0x01];
    let mut port = ComPort::new(Scripted::new(vec![Some(vec![checksum(&chunk)])]));
    assert_eq!(write_program_chunk(&mut port, &chunk, 0), Ok(()));
    assert_eq!(checksum(&chunk), 0x11);
}

#[test]
fn chunk_stops_with_the_transport() {
    let chunk = [1u8, 2, 3];
    let mut port = ComPort::new(Scripted::failing_write(0, vec![Some(vec![6])]));
    assert_eq!(write_program_chunk(&mut port, &chunk, 0), Err(write_failed()));
    let transport = port.into_inner();
    assert_eq!(transport.written.len(), 1);
    assert!(transport.asked.is_empty());

    let mut port = ComPort::new(Scripted::failing_write(1, vec![Some(vec![6])]));
    assert_eq!(write_program_chunk(&mut port, &chunk, 0), Err(write_failed()));
    assert!(port.into_inner().asked.is_empty());

    let mut port = ComPort::new(Scripted::new(vec![None]));
    assert_eq!(write_program_chunk(&mut port, &chunk, 0), Err(timed_out()));

    let mut port = ComPort::new(Scripted::new(vec![Some(vec![6, 6])]));
    assert_eq!(
        write_program_chunk(&mut port, &chunk, 0),
        Err(Error::SerialPort(com_port::Error::Short { wanted: 1, got: 2 }))
    );
}

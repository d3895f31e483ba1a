//! Tests for the alignment helper and the resumable transfer state
//! machines, driven against real blocking readers.

use std::io::{ErrorKind, Read};

use basic_tar::U64Ext;
use basic_tar::stream::{Chunked, StreamEvent, StreamStep, Transfer, CHUNK_LEN};

#[test]
fn test_alignment() {
    assert_eq!(0u64.ceil_to_multiple_of(512), 0);
    assert_eq!(1u64.ceil_to_multiple_of(512), 512);
    assert_eq!(512u64.ceil_to_multiple_of(512), 512);
    assert_eq!(513u64.ceil_to_multiple_of(512), 1024);
}

#[test]
fn test_alignment_other_multiples() {
    assert_eq!(9u64.ceil_to_multiple_of(4), 12);
    assert_eq!(12u64.ceil_to_multiple_of(4), 12);
    assert_eq!(7u64.ceil_to_multiple_of(1), 7);
    assert_eq!(u64::MAX.ceil_to_multiple_of(1), u64::MAX);
}

/// A reader that hands out its data in small pieces and raises exactly
/// one transient interruption part-way through.
struct FlakyReader {
    data: Vec<u8>,
    pos: usize,
    interrupt_at: usize,
    interrupted: bool,
}

impl Read for FlakyReader {
    fn read(&mut self, buf: &mut [u8]) -> std::io::Result<usize> {
        if self.pos == self.interrupt_at && !self.interrupted {
            self.interrupted = true;
            return Err(std::io::Error::from(ErrorKind::Interrupted));
        }
        let n = buf.len().min(3).min(self.data.len() - self.pos);
        buf[..n].copy_from_slice(&self.data[self.pos..self.pos + n]);
        self.pos += n;
        Ok(n)
    }
}

#[test]
fn test_resumable_read_under_interruption() {
    let data: Vec<u8> = (0u8..10).collect();
    let mut reader = FlakyReader { data: data.clone(), pos: 0, interrupt_at: 3, interrupted: false };

    let mut buf = vec![0u8; 10];
    let mut transfer = Transfer::new(buf.len());
    let mut progress_total: usize = 0;
    let mut retries: usize = 0;

    while !transfer.is_done() {
        let event = match reader.read(&mut buf[transfer.pos..]) {
            Ok(n) => StreamEvent::Moved(n),
            Err(e) if e.kind() == ErrorKind::Interrupted => StreamEvent::Interrupted,
            Err(_) => StreamEvent::Failed,
        };
        match transfer.apply(event) {
            StreamStep::More | StreamStep::Done => {
                if let StreamEvent::Moved(n) = event {
                    // The progress callback fires once per successful read.
                    progress_total += n;
                }
            }
            StreamStep::Retry => retries += 1,
            StreamStep::Ended => panic!("unexpected end of input"),
            StreamStep::Abort => panic!("unexpected stream failure"),
        }
    }

    // The exact requested byte count arrived, nothing duplicated and
    // nothing skipped, and the reported progress equals the bytes read.
    assert_eq!(buf, data);
    assert_eq!(transfer.pos, 10);
    assert_eq!(progress_total, 10);
    assert_eq!(retries, 1);
}

#[test]
fn test_transfer_interruption_keeps_position() {
    let mut transfer = Transfer::new(100);
    assert_eq!(transfer.apply(StreamEvent::Moved(40)), StreamStep::More);
    assert_eq!(transfer.pos, 40);
    assert_eq!(transfer.apply(StreamEvent::Interrupted), StreamStep::Retry);
    assert_eq!(transfer.pos, 40);
    assert_eq!(transfer.remaining(), 60);
    assert_eq!(transfer.apply(StreamEvent::Moved(60)), StreamStep::Done);
    assert_eq!(transfer.pos, 100);
}

#[test]
fn test_transfer_early_end_and_abort() {
    let mut transfer = Transfer::new(8);
    assert_eq!(transfer.apply(StreamEvent::Moved(0)), StreamStep::Ended);
    assert_eq!(transfer.pos, 0);
    assert_eq!(transfer.apply(StreamEvent::Failed), StreamStep::Abort);
    assert_eq!(transfer.pos, 0);
}

#[test]
fn test_chunked_drain_sizes() {
    let mut chunked = Chunked::new(2 * CHUNK_LEN + 1808);
    let mut sizes = Vec::new();
    while !chunked.is_done() {
        let n = chunked.next_chunk();
        sizes.push(n);
        chunked.consume(n);
    }
    assert_eq!(sizes, vec![CHUNK_LEN, CHUNK_LEN, 1808]);
    assert_eq!(chunked.remaining, 0);
}

use bitbang_spi::signal::{RecordPin, ScriptPin};
use bitbang_spi::spi::{Polarity, Spi};

fn msb_bits(w: u8) -> Vec<bool> {
    let mut out = Vec::new();
    let mut i = 0;
    while i < 8 {
        out.push((w >> (7 - i)) & 1 == 1);
        i += 1;
    }
    out
}

fn stream_bits(words: &[u8]) -> Vec<bool> {
    let mut out = Vec::new();
    for w in words {
        out.extend(msb_bits(*w));
    }
    out
}

#[test]
fn write_bit_order_msb_first() {
    let mosi = RecordPin::new();
    let mut spi = Spi::<RecordPin, ScriptPin, RecordPin>::new(
        None,
        None,
        Some(mosi),
        Polarity::IdleLow,
        0,
    );
    let r = spi.write(&[0b1011_0000]);
    assert_eq!(r, Ok(()));
    let log = &spi.mosi.as_ref().unwrap().log;
    assert_eq!(log, &vec![true, false, true, true, false, false, false, false]);
}

#[test]
fn write_line_counts_and_success() {
    let sck = RecordPin::new();
    let mosi = RecordPin::new();
    let mut spi = Spi::<RecordPin, ScriptPin, RecordPin>::new(
        Some(sck),
        None,
        Some(mosi),
        Polarity::IdleLow,
        2,
    );
    let r = spi.write(&[0x12, 0x34, 0x56]);
    assert_eq!(r, Ok(()));
    let mosi_log = &spi.mosi.as_ref().unwrap().log;
    assert_eq!(mosi_log.len(), 24);
    assert_eq!(mosi_log, &stream_bits(&[0x12, 0x34, 0x56]));
    // one entry from construction, then two clock edges per bit
    let sck_log = &spi.sck.as_ref().unwrap().log;
    assert_eq!(sck_log.len(), 1 + 48);
}

#[test]
fn clock_rests_idle_low() {
    let sck = RecordPin::new();
    let mut spi = Spi::<RecordPin, ScriptPin, RecordPin>::new(
        Some(sck),
        None,
        None,
        Polarity::IdleLow,
        0,
    );
    assert_eq!(spi.sck.as_ref().unwrap().log, vec![false]);
    spi.write(&[0xFF, 0x00]).unwrap();
    assert_eq!(spi.sck.as_ref().unwrap().log.last(), Some(&false));
}

#[test]
fn clock_rests_idle_high() {
    let sck = RecordPin::new();
    let mut spi = Spi::<RecordPin, ScriptPin, RecordPin>::new(
        Some(sck),
        None,
        None,
        Polarity::IdleHigh,
        1,
    );
    assert_eq!(spi.sck.as_ref().unwrap().log, vec![true]);
    spi.write(&[0xFF, 0x00]).unwrap();
    assert_eq!(spi.sck.as_ref().unwrap().log.last(), Some(&true));
    let mut buf = vec![0xA7u8];
    let miso = ScriptPin::new(vec![Some(false); 8]);
    let mut spi2 = Spi::<RecordPin, ScriptPin, RecordPin>::new(
        Some(RecordPin::new()),
        Some(miso),
        None,
        Polarity::IdleHigh,
        0,
    );
    spi2.transfer(&mut buf).unwrap();
    assert_eq!(spi2.sck.as_ref().unwrap().log.last(), Some(&true));
}

#[test]
fn clock_pulse_shape_any_delay() {
    // For each delay, including zero, each bit yields exactly one
    // assert/de-assert pair; the trace does not depend on the delay.
    let mut traces = Vec::new();
    for delay in [0usize, 3] {
        let sck = RecordPin::new();
        let mut spi = Spi::<RecordPin, ScriptPin, RecordPin>::new(
            Some(sck),
            None,
            None,
            Polarity::IdleLow,
            delay,
        );
        spi.write(&[0x5A]).unwrap();
        let log = spi.sck.unwrap().log;
        assert_eq!(log.len(), 1 + 16);
        assert_eq!(log[0], false);
        let mut k = 1;
        while k < 17 {
            assert_eq!(log[k], true); // active edge
            assert_eq!(log[k + 1], false); // back to idle
            k += 2;
        }
        traces.push(log);
    }
    assert_eq!(traces[0], traces[1]);
}

#[test]
fn transfer_loopback_round_trip() {
    // data-in scripted to reflect exactly what write drives on data-out
    let words = [0xA5u8, 0x3C];
    let script: Vec<Option<bool>> = stream_bits(&words).into_iter().map(Some).collect();
    let miso = ScriptPin::new(script);
    let mut spi = Spi::<RecordPin, ScriptPin, RecordPin>::new(
        Some(RecordPin::new()),
        Some(miso),
        Some(RecordPin::new()),
        Polarity::IdleLow,
        0,
    );
    let mut buf = vec![0xA5u8, 0x3C];
    let r = spi.transfer(&mut buf);
    assert_eq!(r, Ok(()));
    assert_eq!(buf, vec![0xA5, 0x3C]);
    assert_eq!(spi.mosi.as_ref().unwrap().log, stream_bits(&words));
}

#[test]
fn transfer_fails_on_third_bit() {
    // the data-in read fails on the 3rd bit of a 2-word transfer
    let miso = ScriptPin::new(vec![Some(true), Some(true), None]);
    let mut spi = Spi::<RecordPin, ScriptPin, RecordPin>::new(
        Some(RecordPin::new()),
        Some(miso),
        Some(RecordPin::new()),
        Polarity::IdleLow,
        0,
    );
    let mut buf = vec![0x00u8, 0x55];
    let r = spi.transfer(&mut buf);
    assert_eq!(r, Err(()));
    // first two bits sampled high, the rest of the buffer untouched
    assert_eq!(buf, vec![0b1100_0000, 0x55]);
    // the failing bit was still driven out, and its pulse never completed
    assert_eq!(spi.mosi.as_ref().unwrap().log.len(), 3);
    let sck_log = &spi.sck.as_ref().unwrap().log;
    assert_eq!(sck_log.len(), 1 + 5);
    assert_eq!(sck_log.last(), Some(&true)); // left at the active level
}

#[test]
fn transfer_without_data_in_passes_buffer_through() {
    let mut spi = Spi::<RecordPin, ScriptPin, RecordPin>::new(
        Some(RecordPin::new()),
        None,
        Some(RecordPin::new()),
        Polarity::IdleLow,
        0,
    );
    let mut buf = vec![0xDEu8, 0xAD];
    let r = spi.transfer(&mut buf);
    assert_eq!(r, Ok(()));
    assert_eq!(buf, vec![0xDE, 0xAD]);
    assert_eq!(spi.mosi.as_ref().unwrap().log, stream_bits(&[0xDE, 0xAD]));
}

#[test]
fn transfer_samples_replace_driven_bits() {
    // with no data-out line at all, sampling alone rebuilds each word
    let script: Vec<Option<bool>> = stream_bits(&[0x0F]).into_iter().map(Some).collect();
    let miso = ScriptPin::new(script);
    let mut spi = Spi::<RecordPin, ScriptPin, RecordPin>::new(
        Some(RecordPin::new()),
        Some(miso),
        None,
        Polarity::IdleLow,
        0,
    );
    let mut buf = vec![0xFFu8];
    let r = spi.transfer(&mut buf);
    assert_eq!(r, Ok(()));
    assert_eq!(buf, vec![0x0F]);
}

#[test]
fn absent_clock_still_shifts() {
    // no clock line: write and transfer run to completion, with no pulse
    // and no busy-wait, and still move the data
    let mosi = RecordPin::new();
    let mut spi = Spi::<RecordPin, ScriptPin, RecordPin>::new(
        None,
        None,
        Some(mosi),
        Polarity::IdleLow,
        1_000_000_000,
    );
    let r = spi.write(&[0x81]);
    assert_eq!(r, Ok(()));
    assert_eq!(
        spi.mosi.as_ref().unwrap().log,
        vec![true, false, false, false, false, false, false, true]
    );
    let script: Vec<Option<bool>> = stream_bits(&[0x42]).into_iter().map(Some).collect();
    let mut spi2 = Spi::<RecordPin, ScriptPin, RecordPin>::new(
        None,
        Some(ScriptPin::new(script)),
        None,
        Polarity::IdleHigh,
        1_000_000_000,
    );
    let mut buf = vec![0x00u8];
    let r2 = spi2.transfer(&mut buf);
    assert_eq!(r2, Ok(()));
    assert_eq!(buf, vec![0x42]);
}

#[test]
fn empty_buffer_touches_nothing_but_construction() {
    let mut spi = Spi::<RecordPin, ScriptPin, RecordPin>::new(
        Some(RecordPin::new()),
        Some(ScriptPin::new(Vec::new())),
        Some(RecordPin::new()),
        Polarity::IdleHigh,
        0,
    );
    let r = spi.write(&[]);
    assert_eq!(r, Ok(()));
    let mut buf: Vec<u8> = Vec::new();
    let r2 = spi.transfer(&mut buf);
    assert_eq!(r2, Ok(()));
    assert_eq!(buf, Vec::<u8>::new());
    assert_eq!(spi.sck.as_ref().unwrap().log, vec![true]);
    assert_eq!(spi.mosi.as_ref().unwrap().log.len(), 0);
}

#[test]
fn exhausted_script_fails_first_bit() {
    // a data-in line that can no longer be read fails the transfer at once
    let miso = ScriptPin::new(Vec::new());
    let mut spi = Spi::<RecordPin, ScriptPin, RecordPin>::new(
        Some(RecordPin::new()),
        Some(miso),
        Some(RecordPin::new()),
        Polarity::IdleLow,
        0,
    );
    let mut buf = vec![0x7Eu8];
    let r = spi.transfer(&mut buf);
    assert_eq!(r, Err(()));
    assert_eq!(buf, vec![0x7E]);
    assert_eq!(spi.mosi.as_ref().unwrap().log.len(), 1);
}

//! The persistent event log.
//!
//! Recent events are kept in memory and written to a storage partition of their own, so that the
//! cause of a crash can be seen after the reboot. Storage holds the sequence number that comes
//! next (`lseq`) and 64 slots (`l0` to `l63`), each with an entry's sequence number in 8 bytes,
//! lowest byte first, and its text.
use crate::bytes;
use crate::text;
use vstd::prelude::*;
use vstd::string::*;
use vstd::utf8::*;

verus! {

/// How many entries are kept.
pub const RING_SLOTS: usize = 64;

/// The largest length of an entry's text, in bytes.
pub const MAX_LINE: usize = 112;

/// The shortest time between two flushes of the main loop.
pub const FLUSH_INTERVAL_SECS: u32 = 10;

/// An entry: its sequence number and its text.
pub struct EntryView {
    pub seq: u64,
    pub line: Seq<char>,
}

/// An entry of the log.
#[derive(Debug)]
pub struct Entry {
    pub seq: u64,
    pub line: String,
}

impl View for Entry {
    type V = EntryView;

    open spec fn view(&self) -> EntryView {
        EntryView { seq: self.seq, line: self.line@ }
    }
}

impl Clone for Entry {
    fn clone(&self) -> (r: Self)
        ensures
            r@ == self@,
    {
        Entry { seq: self.seq, line: self.line.clone() }
    }
}

/// The entries as sequence numbers and texts.
pub open spec fn entry_views(entries: Seq<Entry>) -> Seq<EntryView> {
    entries.map_values(|e: Entry| e@)
}

/// The events in memory.
#[derive(Debug)]
pub struct RingState {
    /// The sequence number of the next entry.
    pub next_seq: u64,
    /// Entries below this number are stored, the others still have to be written.
    pub flushed_seq: u64,
    /// The most recent entries, oldest first.
    pub entries: Vec<Entry>,
}

/// How many bytes a character takes.
pub open spec fn char_width(c: char) -> nat {
    encode_scalar(c as u32).len()
}

/// How many characters at the front of `s` fit in `room` bytes.
pub open spec fn fitting(s: Seq<char>, room: nat) -> nat
    decreases s.len(),
{
    if s.len() > 0 && char_width(s[0]) <= room {
        1 + fitting(s.skip(1), (room - char_width(s[0])) as nat)
    } else {
        0
    }
}

/// The longest front part of a text that fits in an entry.
pub open spec fn truncated(s: Seq<char>) -> Seq<char> {
    s.take(fitting(s, MAX_LINE as nat) as int)
}

/// The front part that fits takes no more bytes than there is room, and one more character
/// would.
pub proof fn lemma_fitting(s: Seq<char>, room: nat)
    ensures
        fitting(s, room) <= s.len(),
        encode_utf8(s.take(fitting(s, room) as int)).len() <= room,
        fitting(s, room) < s.len() ==> encode_utf8(s.take((fitting(s, room) + 1) as int)).len() > room,
    decreases s.len(),
{
    let n = fitting(s, room);
    if s.len() > 0 && char_width(s[0]) <= room {
        let left = (room - char_width(s[0])) as nat;
        let rest = s.skip(1);
        lemma_fitting(rest, left);
        assert(s.take(n as int).drop_first() =~= rest.take(n - 1));
        if n < s.len() {
            assert(s.take((n + 1) as int).drop_first() =~= rest.take(n as int));
        }
    } else {
        assert(s.take(0) =~= seq![]);
        if s.len() > 0 {
            assert(s.take(1).drop_first() =~= seq![]);
            assert(s.take(1)[0] == s[0]);
        }
    }
}

fn width(c: char) -> (r: usize)
    ensures
        r == char_width(c),
        1 <= r <= 4,
{
    proof {
        char_is_scalar(c);
    }
    let code: u32 = c as u32;
    if code < 0x80 {
        1
    } else if code < 0x800 {
        2
    } else if code < 0x1_0000 {
        3
    } else {
        4
    }
}

/// Shortens a text to what fits in an entry, without cutting a character.
pub fn truncate(line: &str) -> (r: String)
    ensures
        r@ == truncated(line@),
        encode_utf8(r@).len() <= MAX_LINE,
        encode_utf8(line@).len() <= MAX_LINE ==> r@ == line@,
{
    let chars = text::chars_of(line);
    let ghost s = line@;
    let mut r = String::new();
    let mut room: usize = MAX_LINE;
    let mut i: usize = 0;
    let mut going = true;
    assert(s.skip(0) =~= s);
    while going && i < chars.len()
        invariant
            i <= chars.len(),
            chars@ == s,
            room <= MAX_LINE,
            r@ == s.take(i as int),
            going ==> fitting(s, MAX_LINE as nat) == i + fitting(s.skip(i as int), room as nat),
            !going ==> fitting(s, MAX_LINE as nat) == i,
        decreases chars.len() - i + (if going {
            1int
        } else {
            0int
        }),
    {
        let c = chars[i];
        let w: usize = width(c);
        let ghost rest = s.skip(i as int);
        if w <= room {
            assert(rest.skip(1) =~= s.skip(i + 1));
            assert(s.take(i + 1) =~= s.take(i as int).push(c));
            r.push(c);
            room = room - w;
            i = i + 1;
        } else {
            going = false;
        }
    }
    proof {
        lemma_fitting(s, MAX_LINE as nat);
        let n = fitting(s, MAX_LINE as nat);
        if n < s.len() {
            lemma_prefix_is_no_longer(s, (n + 1) as nat);
        } else {
            assert(s.take(n as int) =~= s);
        }
    }
    r
}

proof fn lemma_prefix_is_no_longer(s: Seq<char>, n: nat)
    requires
        n <= s.len(),
    ensures
        encode_utf8(s.take(n as int)).len() <= encode_utf8(s).len(),
    decreases n,
{
    if n > 0 {
        lemma_prefix_is_no_longer(s.drop_first(), (n - 1) as nat);
        assert(s.take(n as int).drop_first() =~= s.drop_first().take(n - 1));
    }
}

/// The entries that are kept after one more: the 64 most recent.
pub open spec fn kept_entries(entries: Seq<EntryView>, entry: EntryView) -> Seq<EntryView> {
    let all = entries.push(entry);
    if all.len() > RING_SLOTS {
        all.skip(all.len() - RING_SLOTS)
    } else {
        all
    }
}

/// The entries that still have to be written.
pub open spec fn pending(entries: Seq<EntryView>, flushed_seq: u64) -> Seq<EntryView>
    decreases entries.len(),
{
    if entries.len() == 0 {
        seq![]
    } else {
        let front = pending(entries.drop_last(), flushed_seq);
        if entries.last().seq >= flushed_seq {
            front.push(entries.last())
        } else {
            front
        }
    }
}

impl RingState {
    /// The entries in memory, oldest first.
    pub open spec fn list(&self) -> Seq<EntryView> {
        entry_views(self.entries@)
    }

    /// What holds of every log: at most 64 entries, numbered one after the other up to the next
    /// number.
    pub open spec fn wf(&self) -> bool {
        &&& self.list().len() <= RING_SLOTS
        &&& self.list().len() <= self.next_seq
        &&& self.flushed_seq <= self.next_seq
        &&& forall|i: int|
            0 <= i < self.list().len() ==> (#[trigger] self.list()[i]).seq == self.next_seq
                - self.list().len() + i
    }

    /// An empty log whose next entry gets the number `head`. What was numbered before is stored.
    pub fn seeded(head: u64) -> (r: Self)
        ensures
            r.wf(),
            r.next_seq == head,
            r.flushed_seq == head,
            r.list() == Seq::<EntryView>::empty(),
    {
        let r = RingState { next_seq: head, flushed_seq: head, entries: Vec::new() };
        assert(r.list() =~= Seq::<EntryView>::empty());
        r
    }
}

impl Default for RingState {
    fn default() -> (r: Self)
        ensures
            r.wf(),
            r.next_seq == 0,
            r.flushed_seq == 0,
            r.list() == Seq::<EntryView>::empty(),
    {
        Self::seeded(0)
    }
}

/// Adds an entry. It is kept in memory, not written.
pub fn record(ring: &mut RingState, line: &str)
    requires
        old(ring).wf(),
        old(ring).next_seq < u64::MAX,
    ensures
        final(ring).wf(),
        final(ring).next_seq == old(ring).next_seq + 1,
        final(ring).flushed_seq == old(ring).flushed_seq,
        final(ring).list() == kept_entries(
            old(ring).list(),
            (EntryView { seq: old(ring).next_seq, line: truncated(line@) }),
        ),
{
    let ghost before = ring.list();
    let seq: u64 = ring.next_seq;
    let ghost entry = EntryView { seq, line: truncated(line@) };
    ring.entries.push(Entry { seq, line: truncate(line) });
    ring.next_seq = seq + 1;
    assert(ring.list() =~= before.push(entry));
    if ring.entries.len() > RING_SLOTS {
        let ghost full = ring.entries@;
        let _oldest = ring.entries.remove(0);
        assert(ring.entries@ =~= full.skip(1));
        assert(ring.list() =~= before.push(entry).skip(1));
    }
}

fn copy_entries(entries: &Vec<Entry>) -> (r: Vec<Entry>)
    ensures
        entry_views(r@) == entry_views(entries@),
{
    let mut out: Vec<Entry> = Vec::new();
    let mut i: usize = 0;
    while i < entries.len()
        invariant
            i <= entries.len(),
            entry_views(out@) == entry_views(entries@).take(i as int),
        decreases entries.len() - i,
    {
        let entry = entries[i].clone();
        let ghost before = out@;
        out.push(entry);
        assert(entry_views(out@) =~= entry_views(before).push(entry@));
        assert(entry_views(entries@).take(i + 1) =~= entry_views(entries@).take(i as int).push(
            entry@,
        ));
        i = i + 1;
    }
    assert(entry_views(entries@).take(i as int) =~= entry_views(entries@));
    out
}

/// The entries in memory, oldest first.
pub fn ram_entries(ring: &RingState) -> (r: Vec<Entry>)
    ensures
        entry_views(r@) == ring.list(),
{
    copy_entries(&ring.entries)
}

/// The entries that still have to be written, oldest first.
pub fn unflushed_entries(ring: &RingState) -> (r: Vec<Entry>)
    ensures
        entry_views(r@) == pending(ring.list(), ring.flushed_seq),
{
    let mut out: Vec<Entry> = Vec::new();
    let mut i: usize = 0;
    let ghost all = ring.list();
    assert(entry_views(out@) =~= pending(all.take(0), ring.flushed_seq));
    while i < ring.entries.len()
        invariant
            i <= ring.entries.len(),
            all == ring.list(),
            entry_views(out@) == pending(all.take(i as int), ring.flushed_seq),
        decreases ring.entries.len() - i,
    {
        let ghost longer = all.take(i + 1);
        assert(longer.drop_last() =~= all.take(i as int));
        assert(longer.last() == ring.entries@[i as int]@);
        if ring.entries[i].seq >= ring.flushed_seq {
            let entry = ring.entries[i].clone();
            let ghost before = out@;
            out.push(entry);
            assert(entry_views(out@) =~= entry_views(before).push(entry@));
        }
        i = i + 1;
    }
    assert(all.take(i as int) =~= all);
    out
}

/// A value to be written under a key.
#[derive(Debug)]
pub struct StorageWrite {
    pub key: String,
    pub blob: Vec<u8>,
}

/// What is written under which key.
pub struct WriteView {
    pub key: Seq<char>,
    pub blob: Seq<u8>,
}

impl View for StorageWrite {
    type V = WriteView;

    open spec fn view(&self) -> WriteView {
        WriteView { key: self.key@, blob: self.blob@ }
    }
}

/// The writes as keys and values.
pub open spec fn write_views(writes: Seq<StorageWrite>) -> Seq<WriteView> {
    writes.map_values(|w: StorageWrite| w@)
}

/// The key of the sequence number that comes next.
pub open spec fn head_key() -> Seq<char> {
    "lseq"@
}

/// The key of the slot of an entry.
pub open spec fn slot_key(seq: u64) -> Seq<char> {
    seq!['l'] + text::decimal(seq as nat % 64)
}

/// An entry as it is stored.
pub open spec fn entry_blob(entry: EntryView) -> Seq<u8> {
    bytes::le_bytes(entry.seq as nat, 8) + encode_utf8(entry.line)
}

/// The write that stores the sequence number that comes next.
pub open spec fn head_write(next_seq: u64) -> WriteView {
    WriteView { key: head_key(), blob: bytes::le_bytes(next_seq as nat, 8) }
}

/// The write that stores an entry.
pub open spec fn entry_write(entry: EntryView) -> WriteView {
    WriteView { key: slot_key(entry.seq), blob: entry_blob(entry) }
}

/// The writes that store what is pending: the next number first, then the entries, oldest first.
/// There are none where nothing is pending.
pub open spec fn flush_writes(entries: Seq<EntryView>, flushed_seq: u64, next_seq: u64) -> Seq<
    WriteView,
> {
    let waiting = pending(entries, flushed_seq);
    if waiting.len() == 0 {
        seq![]
    } else {
        seq![head_write(next_seq)] + waiting.map_values(|e: EntryView| entry_write(e))
    }
}

/// The writes that store everything pending, to be done in order. Where one fails the rest is
/// left out and [`mark_flushed`] is not called, so that what is pending stays pending.
pub fn flush(ring: &RingState) -> (r: Vec<StorageWrite>)
    ensures
        write_views(r@) == flush_writes(ring.list(), ring.flushed_seq, ring.next_seq),
{
    let waiting = unflushed_entries(ring);
    let ghost views = entry_views(waiting@);
    let ghost mapped = views.map_values(|e: EntryView| entry_write(e));
    let ghost first = seq![head_write(ring.next_seq)];
    let mut out: Vec<StorageWrite> = Vec::new();
    if waiting.len() == 0 {
        assert(write_views(out@) =~= seq![]);
        return out;
    }
    let mut head: Vec<u8> = Vec::new();
    bytes::push_le(&mut head, ring.next_seq, 8);
    assert(head@ =~= bytes::le_bytes(ring.next_seq as nat, 8));
    out.push(StorageWrite { key: "lseq".to_owned(), blob: head });
    assert(write_views(out@) =~= first + mapped.take(0));
    let mut i: usize = 0;
    while i < waiting.len()
        invariant
            i <= waiting.len(),
            views == entry_views(waiting@),
            mapped == views.map_values(|e: EntryView| entry_write(e)),
            write_views(out@) == first + mapped.take(i as int),
        decreases waiting.len() - i,
    {
        let seq: u64 = waiting[i].seq;
        let mut key = String::new();
        key.push('l');
        text::push_decimal(&mut key, (seq % 64) as u128);
        assert(key@ =~= slot_key(seq));
        let mut blob: Vec<u8> = Vec::new();
        bytes::push_le(&mut blob, seq, 8);
        let text_bytes = waiting[i].line.as_str().as_bytes_vec();
        let mut text_bytes = text_bytes;
        blob.append(&mut text_bytes);
        let ghost before = out@;
        let write = StorageWrite { key, blob };
        proof {
            assert(write.blob@ =~= entry_blob(views[i as int]));
            assert(mapped.take(i + 1) =~= mapped.take(i as int).push(mapped[i as int]));
            assert((first + mapped.take(i as int)).push(write@) =~= first + mapped.take(
                i as int,
            ).push(write@));
        }
        out.push(write);
        assert(write_views(out@) =~= write_views(before).push(write@));
        i = i + 1;
    }
    assert(mapped.take(i as int) =~= mapped);
    out
}

/// Notes that everything pending was written.
pub fn mark_flushed(ring: &mut RingState)
    requires
        old(ring).wf(),
    ensures
        final(ring).wf(),
        final(ring).next_seq == old(ring).next_seq,
        final(ring).flushed_seq == old(ring).next_seq,
        final(ring).list() == old(ring).list(),
{
    ring.flushed_seq = ring.next_seq;
}

/// Whether the main loop flushes at the uptime `now`, having flushed last at `last`.
pub fn periodic_flush(now: u32, last: u32) -> (r: bool)
    ensures
        r == (now >= last + FLUSH_INTERVAL_SECS),
{
    now >= last && now - last >= FLUSH_INTERVAL_SECS
}

/// The number stored in `k` bytes; anything else counts as 0.
pub open spec fn stored_number(blob: Option<Seq<u8>>, k: nat) -> nat {
    match blob {
        Some(b) => if b.len() == k {
            bytes::le_value(b)
        } else {
            0
        },
        None => 0,
    }
}

/// The bytes of a stored value.
pub open spec fn blob_view(blob: Option<Vec<u8>>) -> Option<Seq<u8>> {
    match blob {
        Some(b) => Some(b@),
        None => None,
    }
}

/// The stored number of boots.
pub fn boot_count(blob: &Option<Vec<u8>>) -> (r: u32)
    ensures
        r == stored_number(blob_view(*blob), 4),
{
    match blob {
        Some(b) => if b.len() == 4 {
            proof {
                reveal_with_fuel(bytes::byte_range, 5);
                assert(b@.subrange(0, 4) =~= b@);
            }
            bytes::read_le(b.as_slice(), 0, 4) as u32
        } else {
            0
        },
        None => 0,
    }
}

/// The stored sequence number that comes next.
pub fn persisted_head_seq(blob: &Option<Vec<u8>>) -> (r: u64)
    ensures
        r == stored_number(blob_view(*blob), 8),
{
    match blob {
        Some(b) => if b.len() == 8 {
            proof {
                assert(b@.subrange(0, 8) =~= b@);
            }
            bytes::read_le(b.as_slice(), 0, 8)
        } else {
            0
        },
        None => 0,
    }
}

/// Why the device was reset.
#[derive(Debug, Clone, Copy, PartialEq, Eq, Structural)]
pub enum ResetReason {
    PowerOn,
    External,
    Software,
    Panic,
    InterruptWatchdog,
    TaskWatchdog,
    Watchdog,
    DeepSleep,
    Brownout,
    Sdio,
    Usb,
    Jtag,
    Efuse,
    PowerGlitch,
    CpuLockup,
    Unknown,
    Host,
}

/// The label of a reset reason.
pub open spec fn reason_text(reason: ResetReason) -> Seq<char> {
    match reason {
        ResetReason::PowerOn => "power-on"@,
        ResetReason::External => "external-pin"@,
        ResetReason::Software => "software"@,
        ResetReason::Panic => "panic"@,
        ResetReason::InterruptWatchdog => "interrupt-wdt"@,
        ResetReason::TaskWatchdog => "task-wdt"@,
        ResetReason::Watchdog => "wdt"@,
        ResetReason::DeepSleep => "deep-sleep"@,
        ResetReason::Brownout => "brownout"@,
        ResetReason::Sdio => "sdio"@,
        ResetReason::Usb => "usb"@,
        ResetReason::Jtag => "jtag"@,
        ResetReason::Efuse => "efuse"@,
        ResetReason::PowerGlitch => "power-glitch"@,
        ResetReason::CpuLockup => "cpu-lockup"@,
        ResetReason::Unknown => "unknown"@,
        ResetReason::Host => "host"@,
    }
}

/// The label of a reset reason.
pub fn reset_reason_label(reason: ResetReason) -> (r: &'static str)
    ensures
        r@ == reason_text(reason),
{
    match reason {
        ResetReason::PowerOn => "power-on",
        ResetReason::External => "external-pin",
        ResetReason::Software => "software",
        ResetReason::Panic => "panic",
        ResetReason::InterruptWatchdog => "interrupt-wdt",
        ResetReason::TaskWatchdog => "task-wdt",
        ResetReason::Watchdog => "wdt",
        ResetReason::DeepSleep => "deep-sleep",
        ResetReason::Brownout => "brownout",
        ResetReason::Sdio => "sdio",
        ResetReason::Usb => "usb",
        ResetReason::Jtag => "jtag",
        ResetReason::Efuse => "efuse",
        ResetReason::PowerGlitch => "power-glitch",
        ResetReason::CpuLockup => "cpu-lockup",
        ResetReason::Unknown => "unknown",
        ResetReason::Host => "host",
    }
}

/// The number of this boot, given the stored number of boots.
pub open spec fn next_boot(count: nat) -> u32 {
    if count == u32::MAX {
        0
    } else {
        (count + 1) as u32
    }
}

/// The entry of a boot.
pub open spec fn boot_line(count: u32, reason: ResetReason, build_id: Seq<char>) -> Seq<char> {
    "boot #"@ + text::decimal(count as nat) + " reset="@ + reason_text(reason) + " fw="@ + build_id
}

/// Starts the log: numbering goes on where the stored log ended, and the boot is the first
/// entry. Gives the log and the number of this boot, which is to be stored.
pub fn init(
    head: &Option<Vec<u8>>,
    boots: &Option<Vec<u8>>,
    reason: ResetReason,
    build_id: &str,
) -> (r: (RingState, u32))
    requires
        stored_number(blob_view(*head), 8) < u64::MAX,
    ensures
        r.0.wf(),
        ({
            let first = stored_number(blob_view(*head), 8);
            let count = next_boot(stored_number(blob_view(*boots), 4));
            &&& r.1 == count
            &&& r.0.next_seq == first + 1
            &&& r.0.flushed_seq == first
            &&& r.0.list() == seq![
                (EntryView {
                    seq: first as u64,
                    line: truncated(boot_line(count, reason, build_id@)),
                }),
            ]
        }),
{
    let mut ring = RingState::seeded(persisted_head_seq(head));
    let stored: u32 = boot_count(boots);
    let count: u32 = if stored == u32::MAX {
        0
    } else {
        stored + 1
    };
    let mut line = String::new();
    line.append("boot #");
    text::push_decimal(&mut line, count as u128);
    line.append(" reset=");
    line.append(reset_reason_label(reason));
    line.append(" fw=");
    line.append(build_id);
    assert(line@ =~= boot_line(count, reason, build_id@));
    record(&mut ring, line.as_str());
    assert(ring.list() =~= seq![
        (EntryView {
            seq: (ring.next_seq - 1) as u64,
            line: truncated(boot_line(count, reason, build_id@)),
        }),
    ]);
    (ring, count)
}

/// The entry of a message of the `log` crate.
pub fn log_line(level: &str, target: &str, message: &str) -> (r: String)
    ensures
        r@ == "["@ + level@ + "] ["@ + target@ + "] "@ + message@,
{
    let mut line = String::new();
    line.append("[");
    line.append(level);
    line.append("] [");
    line.append(target);
    line.append("] ");
    line.append(message);
    assert(line@ =~= "["@ + level@ + "] ["@ + target@ + "] "@ + message@);
    line
}

/// Where a panic happened.
pub open spec fn location_text(location: Option<(Seq<char>, u32)>) -> Seq<char> {
    match location {
        Some((file, line)) => " at "@ + file + ":"@ + text::decimal(line as nat),
        None => Seq::empty(),
    }
}

/// The entry of a panic. A thread without a name and a message that is no text have stand-ins.
pub fn panic_line(
    thread: Option<&str>,
    message: Option<&str>,
    file: Option<&str>,
    line: u32,
) -> (r: String)
    ensures
        r@ == "PANIC thread="@ + (match thread {
            Some(name) => name@,
            None => "<unnamed>"@,
        }) + ": "@ + (match message {
            Some(m) => m@,
            None => "unknown panic payload"@,
        }) + location_text(
            match file {
                Some(f) => Some((f@, line)),
                None => None,
            },
        ),
{
    let name: &str = match thread {
        Some(name) => name,
        None => "<unnamed>",
    };
    let what: &str = match message {
        Some(m) => m,
        None => "unknown panic payload",
    };
    let mut out = String::new();
    out.append("PANIC thread=");
    out.append(name);
    out.append(": ");
    out.append(what);
    match file {
        Some(f) => {
            out.append(" at ");
            out.append(f);
            out.append(":");
            text::push_decimal(&mut out, line as u128);
            assert(out@ =~= "PANIC thread="@ + name@ + ": "@ + what@ + location_text(
                Some((f@, line)),
            ));
        },
        None => {
            assert(out@ =~= "PANIC thread="@ + name@ + ": "@ + what@ + location_text(None));
        },
    }
    out
}

/// The text that bytes which are no UTF-8 stand for, with what is malformed replaced.
pub uninterp spec fn repaired_text(b: Seq<u8>) -> Seq<char>;

/// The text that bytes stand for.
pub open spec fn text_in(b: Seq<u8>) -> Seq<char> {
    if valid_utf8(b) {
        decode_utf8(b)
    } else {
        repaired_text(b)
    }
}

/// `String::from_utf8_lossy` of the standard library. Bytes that are UTF-8 give the text they
/// encode; for others the result is a function of the bytes, of which no more is said.
#[verifier::external_body]
fn text_from_bytes(b: &[u8]) -> (r: String)
    ensures
        valid_utf8(b@) ==> r@ == decode_utf8(b@),
        !valid_utf8(b@) ==> r@ == repaired_text(b@),
{
    String::from_utf8_lossy(b).into_owned()
}

/// The entry that a slot holds, if it holds one.
pub open spec fn entry_in(blob: Option<Seq<u8>>) -> Option<EntryView> {
    match blob {
        Some(b) => if b.len() < 8 {
            None
        } else {
            Some(
                EntryView {
                    seq: bytes::le_value(b.subrange(0, 8)) as u64,
                    line: text_in(b.subrange(8, b.len() as int)),
                },
            )
        },
        None => None,
    }
}

/// The entries in some slots.
pub open spec fn entries_in(slots: Seq<Option<Seq<u8>>>) -> Seq<EntryView>
    decreases slots.len(),
{
    if slots.len() == 0 {
        seq![]
    } else {
        let front = entries_in(slots.drop_last());
        match entry_in(slots.last()) {
            Some(entry) => front.push(entry),
            None => front,
        }
    }
}

/// A list sorted by number with one more entry, behind those with the same number.
pub open spec fn inserted(list: Seq<EntryView>, entry: EntryView) -> Seq<EntryView>
    decreases list.len(),
{
    if list.len() == 0 || list.last().seq <= entry.seq {
        list.push(entry)
    } else {
        inserted(list.drop_last(), entry).push(list.last())
    }
}

/// A list sorted by number. Entries with the same number keep their order.
pub open spec fn sorted(list: Seq<EntryView>) -> Seq<EntryView>
    decreases list.len(),
{
    if list.len() == 0 {
        seq![]
    } else {
        inserted(sorted(list.drop_last()), list.last())
    }
}

/// The entries in memory that are newer than everything stored.
pub open spec fn newer_than_stored(ram: Seq<EntryView>, stored: Seq<EntryView>) -> Seq<EntryView>
    decreases ram.len(),
{
    if ram.len() == 0 {
        seq![]
    } else {
        let front = newer_than_stored(ram.drop_last(), stored);
        if stored.len() == 0 || ram.last().seq > stored.last().seq {
            front.push(ram.last())
        } else {
            front
        }
    }
}

/// The contents of slots read from storage.
pub open spec fn slot_contents(slots: Seq<Option<Vec<u8>>>) -> Seq<Option<Seq<u8>>> {
    slots.map_values(|b: Option<Vec<u8>>| blob_view(b))
}

fn insert_entry(list: &mut Vec<Entry>, entry: Entry)
    ensures
        entry_views(final(list)@) == inserted(entry_views(old(list)@), entry@),
{
    let ghost before = entry_views(list@);
    let mut at: usize = list.len();
    assert(before.take(at as int) =~= before);
    assert(inserted(before.take(at as int), entry@) + before.skip(at as int) =~= inserted(
        before,
        entry@,
    ));
    while at > 0 && list[at - 1].seq > entry.seq
        invariant
            at <= list.len(),
            before == entry_views(list@),
            list@ == old(list)@,
            inserted(before.take(at as int), entry@) + before.skip(at as int) == inserted(
                before,
                entry@,
            ),
        decreases at,
    {
        proof {
            let front = before.take(at as int);
            assert(front.drop_last() =~= before.take(at - 1));
            assert(front.last() == before[at - 1]);
            assert(inserted(before.take(at - 1), entry@).push(front.last()) + before.skip(at as int)
                =~= inserted(before.take(at - 1), entry@) + before.skip(at - 1));
        }
        at = at - 1;
    }
    proof {
        let front = before.take(at as int);
        assert(inserted(front, entry@) =~= front.push(entry@));
        assert(front.push(entry@) + before.skip(at as int) =~= before.insert(at as int, entry@));
    }
    list.insert(at, entry);
    assert(entry_views(list@) =~= before.insert(at as int, entry@));
}

fn sort_entries(list: &Vec<Entry>) -> (r: Vec<Entry>)
    ensures
        entry_views(r@) == sorted(entry_views(list@)),
{
    let ghost all = entry_views(list@);
    let mut out: Vec<Entry> = Vec::new();
    let mut i: usize = 0;
    assert(entry_views(out@) =~= sorted(all.take(0)));
    while i < list.len()
        invariant
            i <= list.len(),
            all == entry_views(list@),
            entry_views(out@) == sorted(all.take(i as int)),
        decreases list.len() - i,
    {
        assert(all.take(i + 1).drop_last() =~= all.take(i as int));
        assert(all.take(i + 1).last() == list@[i as int]@);
        insert_entry(&mut out, list[i].clone());
        i = i + 1;
    }
    assert(all.take(i as int) =~= all);
    out
}

/// The stored entries, oldest first.
pub fn persisted_entries(slots: &Vec<Option<Vec<u8>>>) -> (r: Vec<Entry>)
    ensures
        entry_views(r@) == sorted(entries_in(slot_contents(slots@))),
{
    let ghost contents = slot_contents(slots@);
    let mut found: Vec<Entry> = Vec::new();
    let mut i: usize = 0;
    assert(entry_views(found@) =~= entries_in(contents.take(0)));
    while i < slots.len()
        invariant
            i <= slots.len(),
            contents == slot_contents(slots@),
            entry_views(found@) == entries_in(contents.take(i as int)),
        decreases slots.len() - i,
    {
        assert(contents.take(i + 1).drop_last() =~= contents.take(i as int));
        assert(contents.take(i + 1).last() == blob_view(slots@[i as int]));
        match &slots[i] {
            Some(b) => {
                if b.len() >= 8 {
                    let data = b.as_slice();
                    let seq: u64 = bytes::read_le(data, 0, 8);
                    let line = text_from_bytes(
                        vstd::slice::slice_subrange(data, 8, data.len()),
                    );
                    let ghost before = found@;
                    let entry = Entry { seq, line };
                    found.push(entry);
                    assert(entry_views(found@) =~= entry_views(before).push(entry@));
                }
            },
            None => {},
        }
        i = i + 1;
    }
    assert(contents.take(i as int) =~= contents);
    sort_entries(&found)
}

/// The stored entries and those in memory that are not stored yet, oldest first.
pub fn all_entries(stored: &Vec<Entry>, ring: &RingState) -> (r: Vec<Entry>)
    ensures
        entry_views(r@) == sorted(
            entry_views(stored@) + newer_than_stored(ring.list(), entry_views(stored@)),
        ),
{
    let ghost old_views = entry_views(stored@);
    let ghost ram = ring.list();
    let mut merged = copy_entries(stored);
    let n: usize = stored.len();
    let mut i: usize = 0;
    assert(entry_views(merged@) =~= old_views + newer_than_stored(ram.take(0), old_views));
    while i < ring.entries.len()
        invariant
            i <= ring.entries.len(),
            n == stored.len(),
            old_views == entry_views(stored@),
            ram == ring.list(),
            entry_views(merged@) == old_views + newer_than_stored(ram.take(i as int), old_views),
        decreases ring.entries.len() - i,
    {
        let ghost longer = ram.take(i + 1);
        assert(longer.drop_last() =~= ram.take(i as int));
        assert(longer.last() == ring.entries@[i as int]@);
        if n == 0 || ring.entries[i].seq > stored[n - 1].seq {
            let entry = ring.entries[i].clone();
            let ghost before = merged@;
            merged.push(entry);
            assert(entry_views(merged@) =~= entry_views(before).push(entry@));
            assert((old_views + newer_than_stored(ram.take(i as int), old_views)).push(entry@)
                =~= old_views + newer_than_stored(ram.take(i as int), old_views).push(entry@));
        }
        i = i + 1;
    }
    assert(ram.take(i as int) =~= ram);
    sort_entries(&merged)
}

} // verus!

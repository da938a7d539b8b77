//! The table of interface statistics, as the kernel's routing socket lays it
//! out, and the samples read from it.
//!
//! The table is a run of records. Each starts with its own length, so that a
//! record of a type that is not understood can be stepped over. Numbers are
//! stored with the low byte first.

use vstd::prelude::*;

verus! {

/// Type of a record that holds an interface's statistics.
pub const RTM_IFINFO2: u8 = 0x12;

/// Flag of a loopback interface.
pub const IFF_LOOPBACK: u32 = 0x8;

/// Size of the buffer that takes an interface's name, the closing zero included.
pub const IF_NAMESIZE: usize = 16;

/// Bytes with which every record starts: its length (2), version (1) and
/// type (1), an address mask (4) and the interface's flags (4).
pub const HEAD_LEN: usize = 12;

/// Bytes of an interface-info record: the head, the interface's index, the
/// state of its send queue, and its statistics.
pub const INFO_LEN: usize = 160;

/// Where in a record its type stands, in one byte.
pub const TYPE_AT: usize = 3;

/// Where in a record the interface's flags stand, in four bytes.
pub const FLAGS_AT: usize = 8;

/// Where in a record the interface's index stands, in two bytes.
pub const INDEX_AT: usize = 12;

/// Where in an interface-info record the count of bytes received stands, in
/// eight bytes.
pub const IBYTES_AT: usize = 96;

/// Where in an interface-info record the count of bytes sent stands, in
/// eight bytes.
pub const OBYTES_AT: usize = 104;

/// The number that two bytes at `at` hold, the low byte first.
pub open spec fn le_u16(table: Seq<u8>, at: int) -> u16 {
    (table[at] + table[at + 1] * 0x100) as u16
}

/// The number that four bytes at `at` hold, the low byte first.
pub open spec fn le_u32(table: Seq<u8>, at: int) -> u32 {
    (le_u16(table, at) + le_u16(table, at + 2) * 0x1_0000) as u32
}

/// The number that eight bytes at `at` hold, the low byte first.
pub open spec fn le_u64(table: Seq<u8>, at: int) -> u64 {
    (le_u32(table, at) + le_u32(table, at + 4) * 0x1_0000_0000) as u64
}

fn read_u16(table: &[u8], at: usize) -> (value: u16)
    requires
        at + 2 <= table.len(),
    ensures
        value == le_u16(table@, at as int),
{
    table[at] as u16 + table[at + 1] as u16 * 0x100
}

fn read_u32(table: &[u8], at: usize) -> (value: u32)
    requires
        at + 4 <= table.len(),
    ensures
        value == le_u32(table@, at as int),
{
    read_u16(table, at) as u32 + read_u16(table, at + 2) as u32 * 0x1_0000
}

fn read_u64(table: &[u8], at: usize) -> (value: u64)
    requires
        at + 8 <= table.len(),
    ensures
        value == le_u64(table@, at as int),
{
    read_u32(table, at) as u64 + read_u32(table, at + 4) as u64 * 0x1_0000_0000
}

/// What one interface-info record says of its interface.
#[derive(Debug, Clone, Copy, PartialEq, Eq)]
pub struct Link {
    /// The number under which the system knows the interface.
    pub index: u16,
    /// The interface's flags.
    pub flags: u32,
    /// Bytes received since the counter was last at zero.
    pub in_bytes: u64,
    /// Bytes sent since the counter was last at zero.
    pub out_bytes: u64,
}

/// A place in a table of records.
pub struct Cursor {
    /// The whole table.
    pub table: Seq<u8>,
    /// How many bytes of it lie behind.
    pub pos: int,
}

impl Cursor {
    /// Whether a record starts here: its head lies inside the table, and it
    /// does not claim to have no length.
    pub open spec fn has_record(self) -> bool {
        0 <= self.pos && self.pos + HEAD_LEN <= self.table.len() && le_u16(self.table, self.pos)
            != 0
    }

    /// Where the record that starts here ends: as far on as its length says,
    /// and at the table's end if that lies beyond it.
    pub open spec fn after(self) -> int {
        if self.pos + le_u16(self.table, self.pos) <= self.table.len() {
            self.pos + le_u16(self.table, self.pos)
        } else {
            self.table.len() as int
        }
    }

    /// Whether the record that starts here is one to report: it holds an
    /// interface's statistics, and the interface is no loopback.
    pub open spec fn reports(self) -> bool {
        self.table[self.pos + TYPE_AT] == RTM_IFINFO2 && le_u32(self.table, self.pos + FLAGS_AT)
            & IFF_LOOPBACK != IFF_LOOPBACK
    }

    /// What the record that starts here says.
    pub open spec fn link(self) -> Link {
        Link {
            index: le_u16(self.table, self.pos + INDEX_AT),
            flags: le_u32(self.table, self.pos + FLAGS_AT),
            in_bytes: le_u64(self.table, self.pos + IBYTES_AT),
            out_bytes: le_u64(self.table, self.pos + OBYTES_AT),
        }
    }

    /// The same table at another place.
    pub open spec fn at(self, pos: int) -> Cursor {
        Cursor { table: self.table, pos }
    }

    /// The first record to report from here on, and where it ends. There is
    /// none where the records run out first, or where the one to report is
    /// cut short by the table's end.
    pub open spec fn next(self) -> Option<(Link, int)>
        decreases self.table.len() - self.pos,
    {
        if !self.has_record() {
            None
        } else if !self.reports() {
            self.at(self.after()).next()
        } else if self.pos + INFO_LEN <= self.table.len() {
            Some((self.link(), self.after()))
        } else {
            None
        }
    }

    /// Every record to report from here on, in the table's order.
    pub open spec fn rest(self) -> Seq<Link>
        decreases self.table.len() - self.pos,
    {
        match self.next() {
            Some((link, after)) => {
                proof {
                    self.lemma_next_advances();
                }
                seq![link] + self.at(after).rest()
            },
            None => Seq::empty(),
        }
    }

    /// A record that is reported ends beyond the place from which it was
    /// looked for, and inside the table.
    pub proof fn lemma_next_advances(self)
        ensures
            self.next() matches Some((_, after)) ==> self.pos < after <= self.table.len(),
        decreases self.table.len() - self.pos,
    {
        if self.has_record() && !self.reports() {
            self.at(self.after()).lemma_next_advances();
        }
    }

    /// What is reported was read from an interface-info record that lies
    /// whole inside the table, at or behind the place from which it was
    /// looked for, and is never of a loopback interface.
    pub proof fn lemma_next_is_a_record(self)
        ensures
            self.next() matches Some((link, _)) ==> link.flags & IFF_LOOPBACK != IFF_LOOPBACK
                && exists|pos: int|
                self.pos <= pos && pos + INFO_LEN <= self.table.len() && #[trigger] self.at(
                    pos,
                ).reports() && link == self.at(pos).link(),
        decreases self.table.len() - self.pos,
    {
        if self.has_record() {
            if self.reports() {
                assert(self.at(self.pos) == self);
            } else {
                let onward = self.at(self.after());
                onward.lemma_next_is_a_record();
                if onward.next() is Some {
                    let pos = choose|pos: int|
                        onward.pos <= pos && pos + INFO_LEN <= onward.table.len()
                            && #[trigger] onward.at(pos).reports() && onward.next()->Some_0.0
                            == onward.at(pos).link();
                    assert(self.at(pos) == onward.at(pos));
                }
            }
        }
    }

    /// No loopback interface is among those reported.
    pub proof fn lemma_no_loopback(self, i: int)
        requires
            0 <= i < self.rest().len(),
        ensures
            self.rest()[i].flags & IFF_LOOPBACK != IFF_LOOPBACK,
        decreases self.table.len() - self.pos,
    {
        self.lemma_next_advances();
        self.lemma_next_is_a_record();
        if i > 0 {
            self.at(self.next()->Some_0.1).lemma_no_loopback(i - 1);
        }
    }
}

/// Walks a table of records.
pub struct Routes {
    buf: Vec<u8>,
    pos: usize,
}

impl View for Routes {
    type V = Cursor;

    closed spec fn view(&self) -> Cursor {
        Cursor { table: self.buf@, pos: self.pos as int }
    }
}

impl Routes {
    #[verifier::type_invariant]
    spec fn inv(&self) -> bool {
        self.pos <= self.buf.len()
    }

    /// Starts at the head of `buf`.
    pub fn new(buf: Vec<u8>) -> (routes: Self)
        ensures
            routes@ == (Cursor { table: buf@, pos: 0 }),
    {
        Routes { buf, pos: 0 }
    }

    /// The next record to report, if there is one; the walk goes on behind it.
    pub fn next(&mut self) -> (link: Option<Link>)
        ensures
            final(self)@.table == old(self)@.table,
            old(self)@.pos <= final(self)@.pos <= final(self)@.table.len(),
            match old(self)@.next() {
                Some((found, after)) => link == Some(found) && final(self)@.pos == after,
                None => link is None && final(self)@.next() is None,
            },
    {
        proof {
            use_type_invariant(&*self);
        }
        while self.pos < self.buf.len()
            invariant
                self.pos <= self.buf.len(),
                self.buf@ == old(self).buf@,
                self.pos >= old(self).pos,
                self@.next() == old(self)@.next(),
            ensures
                self.pos <= self.buf.len(),
                self.buf@ == old(self).buf@,
                self.pos >= old(self).pos,
                old(self)@.next() is None,
                self@.next() is None,
            decreases self.buf.len() - self.pos,
        {
            let at: usize = self.pos;
            if self.buf.len() - at < HEAD_LEN {
                break;
            }
            let msglen: usize = read_u16(self.buf.as_slice(), at) as usize;
            if msglen == 0 {
                break;
            }
            self.pos = if msglen <= self.buf.len() - at {
                at + msglen
            } else {
                self.buf.len()
            };
            if self.buf[at + TYPE_AT] != RTM_IFINFO2 {
                continue;
            }
            let flags: u32 = read_u32(self.buf.as_slice(), at + FLAGS_AT);
            if flags & IFF_LOOPBACK == IFF_LOOPBACK {
                continue;
            }
            if self.buf.len() - at < INFO_LEN {
                self.pos = at;
                break;
            }
            return Some(
                Link {
                    index: read_u16(self.buf.as_slice(), at + INDEX_AT),
                    flags,
                    in_bytes: read_u64(self.buf.as_slice(), at + IBYTES_AT),
                    out_bytes: read_u64(self.buf.as_slice(), at + OBYTES_AT),
                },
            );
        }
        None
    }
}

/// Reads the kernel's table of interface statistics.
pub struct Monitor;

impl Monitor {
    /// A reader. It keeps nothing from one table to the next.
    pub fn new() -> Self {
        Monitor
    }

    /// Every interface that `table` reports, in the table's order: one entry
    /// for each interface-info record of an interface that is no loopback.
    pub fn current(&self, table: Vec<u8>) -> (links: Vec<Link>)
        ensures
            links@ == (Cursor { table: table@, pos: 0 }).rest(),
    {
        let ghost start = Cursor { table: table@, pos: 0 };
        let mut routes = Routes::new(table);
        let mut links: Vec<Link> = Vec::new();
        loop
            invariant
                routes@.table == start.table,
                0 <= routes@.pos <= start.table.len(),
                links@ + routes@.rest() == start.rest(),
            ensures
                links@ == start.rest(),
            decreases start.table.len() - routes@.pos,
        {
            let ghost before = routes@;
            proof {
                before.lemma_next_advances();
            }
            match routes.next() {
                Some(link) => links.push(link),
                None => break,
            }
        }
        links
    }
}

/// How many bytes of a name buffer come before its first zero: all of them
/// where none is zero.
pub open spec fn name_len(name: Seq<u8>) -> int
    decreases name.len(),
{
    if name.len() == 0 || name[0] == 0 {
        0
    } else {
        1 + name_len(name.drop_first())
    }
}

/// `name_len` is where the first zero stands.
pub proof fn lemma_name_len(name: Seq<u8>, len: int)
    requires
        0 <= len <= name.len(),
        forall|i: int| 0 <= i < len ==> name[i] != 0,
        len < name.len() ==> name[len] == 0,
    ensures
        name_len(name) == len,
    decreases name.len(),
{
    if len > 0 {
        lemma_name_len(name.drop_first(), len - 1);
    }
}

/// The bytes of a name buffer that come before its first zero: the name that
/// the buffer holds.
pub fn name_bytes(buffer: &[u8]) -> (name: &[u8])
    ensures
        name@ == buffer@.take(name_len(buffer@)),
        0 <= name_len(buffer@) <= buffer@.len(),
{
    let mut len: usize = 0;
    while len < buffer.len() && buffer[len] != 0
        invariant
            len <= buffer.len(),
            forall|i: int| 0 <= i < len ==> buffer@[i] != 0,
        decreases buffer.len() - len,
    {
        len += 1;
    }
    proof {
        lemma_name_len(buffer@, len as int);
    }
    vstd::slice::slice_subrange(buffer, 0, len)
}

/// The text that `String::from_utf8_lossy` makes of a byte string.
pub uninterp spec fn utf8_lossy(bytes: Seq<u8>) -> Seq<char>;

/// Calls `String::from_utf8_lossy`, which decodes `bytes` as UTF-8 and puts
/// U+FFFD where they are not. The contract gives the text a name, and says
/// that bytes which are UTF-8 decode to the text that they encode.
#[verifier::external_body]
fn from_utf8_lossy(bytes: &[u8]) -> (text: String)
    ensures
        text@ == utf8_lossy(bytes@),
        vstd::utf8::valid_utf8(bytes@) ==> text@ == vstd::utf8::decode_utf8(bytes@),
{
    String::from_utf8_lossy(bytes).into_owned()
}

/// One interface's counters at one moment.
#[derive(Debug, PartialEq, Eq)]
pub struct Stat {
    /// The interface's name.
    pub name: String,
    /// The interface's flags.
    pub flags: u32,
    /// Bytes received since the counter was last at zero.
    pub in_bytes: u64,
    /// Bytes sent since the counter was last at zero.
    pub out_bytes: u64,
}

/// The system could not tell the name of the interface that a record is about.
#[derive(Debug, Clone, Copy, PartialEq, Eq)]
pub struct RecordError {
    /// The interface's index, as the record gave it.
    pub index: u16,
    /// The system's error code.
    pub code: i32,
}

impl Stat {
    /// Whether this is the sample of an interface of which a record said
    /// `link` and whose name is spelled by `name`: the name is the text that
    /// `name` decodes to, with U+FFFD for what is not UTF-8, and the rest is
    /// the record's.
    pub open spec fn describes(self, link: Link, name: Seq<u8>) -> bool {
        &&& self.name@ == utf8_lossy(name)
        &&& vstd::utf8::valid_utf8(name) ==> self.name@ == vstd::utf8::decode_utf8(name)
        &&& self.flags == link.flags
        &&& self.in_bytes == link.in_bytes
        &&& self.out_bytes == link.out_bytes
    }

    /// Puts a record and the outcome of looking up its interface's name
    /// together. `lookup` is the name buffer as the system filled it, of which
    /// the bytes before the first zero count, or else the system's error
    /// code, which fails the record.
    pub fn resolve(link: &Link, lookup: Result<&[u8], i32>) -> (stat: Result<Stat, RecordError>)
        ensures
            match lookup {
                Ok(buffer) => stat is Ok && stat->Ok_0.describes(
                    *link,
                    buffer@.take(name_len(buffer@)),
                ),
                Err(code) => stat == Err::<Stat, RecordError>(
                    RecordError { index: link.index, code },
                ),
            },
    {
        match lookup {
            Ok(buffer) => Ok(
                Stat {
                    name: from_utf8_lossy(name_bytes(buffer)),
                    flags: link.flags,
                    in_bytes: link.in_bytes,
                    out_bytes: link.out_bytes,
                },
            ),
            Err(code) => Err(RecordError { index: link.index, code }),
        }
    }
}

} // verus!

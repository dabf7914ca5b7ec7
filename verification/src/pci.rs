//! The PCI ID database (`pci.ids`): vendors, their devices and subsystems, parsed from the
//! lines of the database; and the allocators that lay strings and data out in a binary image.
use vstd::prelude::*;
use vstd::string::{StringExecFns, StrSliceExecFns, StringSliceAdditionalSpecFns};

verus! {

/// A subsystem of a device: the subsystem vendor, the subsystem id and its name.
pub type SubDeviceView = (u16, u16, Seq<char>);

/// A device: its id, its name and its subsystems.
pub type DeviceView = (u16, Seq<char>, Seq<SubDeviceView>);

/// A vendor: its id, its name and its devices.
pub type VendorView = (u16, Seq<char>, Seq<DeviceView>);

/// A subsystem of a device.
#[derive(Debug)]
pub struct SubDevice {
    id: u16,
    subvendor: u16,
    subdevice_name: String,
}

impl SubDevice {
    /// The subsystem vendor, the subsystem id and the name.
    pub closed spec fn view(&self) -> SubDeviceView {
        (self.subvendor, self.id, self.subdevice_name@)
    }

    /// Creates the subsystem `id` of the vendor `subvendor`, named `subdevice_name`.
    pub fn new(subvendor: u16, id: u16, subdevice_name: String) -> (r: SubDevice)
        ensures
            r@ == (subvendor, id, subdevice_name@),
    {
        SubDevice { id, subvendor, subdevice_name }
    }

    /// The subsystem vendor.
    pub fn subvendor(&self) -> (r: u16)
        ensures
            r == self@.0,
    {
        self.subvendor
    }

    /// The subsystem id.
    pub fn id(&self) -> (r: u16)
        ensures
            r == self@.1,
    {
        self.id
    }

    /// The name.
    pub fn name(&self) -> (r: &str)
        ensures
            r@ == self@.2,
    {
        self.subdevice_name.as_str()
    }
}

/// A device and its subsystems.
#[derive(Debug)]
pub struct Device {
    id: u16,
    device_name: String,
    subdevices: Vec<SubDevice>,
}

impl Device {
    /// The id, the name and the subsystems.
    pub closed spec fn view(&self) -> DeviceView {
        (self.id, self.device_name@, self.subdevices@.map_values(|s: SubDevice| s@))
    }

    /// Creates the device `id` named `device_name` with the subsystems `subdevices`.
    pub fn new(id: u16, device_name: String, subdevices: Vec<SubDevice>) -> (r: Device)
        ensures
            r@ == (id, device_name@, subdevices@.map_values(|s: SubDevice| s@)),
    {
        Device { id, device_name, subdevices }
    }

    /// The id.
    pub fn id(&self) -> (r: u16)
        ensures
            r == self@.0,
    {
        self.id
    }

    /// The name.
    pub fn name(&self) -> (r: &str)
        ensures
            r@ == self@.1,
    {
        self.device_name.as_str()
    }

    /// The subsystems.
    pub fn subdevices(&self) -> (r: &[SubDevice])
        ensures
            r@.map_values(|s: SubDevice| s@) == self@.2,
    {
        self.subdevices.as_slice()
    }

    fn push_subdevice(&mut self, s: SubDevice)
        ensures
            final(self)@ == (old(self)@.0, old(self)@.1, old(self)@.2.push(s@)),
    {
        self.subdevices.push(s);
        proof {
            assert(self.subdevices@.map_values(|x: SubDevice| x@) =~= old(self)@.2.push(s@));
        }
    }
}

/// A vendor and its devices.
#[derive(Debug)]
pub struct Vendor {
    id: u16,
    vendor_name: String,
    devices: Vec<Device>,
}

impl Vendor {
    /// The id, the name and the devices.
    pub closed spec fn view(&self) -> VendorView {
        (self.id, self.vendor_name@, self.devices@.map_values(|d: Device| d@))
    }

    /// Creates the vendor `id` named `vendor_name` with the devices `devices`.
    pub fn new(id: u16, vendor_name: String, devices: Vec<Device>) -> (r: Vendor)
        ensures
            r@ == (id, vendor_name@, devices@.map_values(|d: Device| d@)),
    {
        Vendor { id, vendor_name, devices }
    }

    /// The id.
    pub fn id(&self) -> (r: u16)
        ensures
            r == self@.0,
    {
        self.id
    }

    /// The name.
    pub fn name(&self) -> (r: &str)
        ensures
            r@ == self@.1,
    {
        self.vendor_name.as_str()
    }

    /// The devices.
    pub fn devices(&self) -> (r: &[Device])
        ensures
            r@.map_values(|d: Device| d@) == self@.2,
    {
        self.devices.as_slice()
    }

    fn push_device(&mut self, d: Device)
        ensures
            final(self)@ == (old(self)@.0, old(self)@.1, old(self)@.2.push(d@)),
    {
        self.devices.push(d);
        proof {
            assert(self.devices@.map_values(|x: Device| x@) =~= old(self)@.2.push(d@));
        }
    }
}

/// `c` is a hexadecimal digit.
pub open spec fn is_hex_digit(c: char) -> bool {
    ('0' <= c <= '9') || ('a' <= c <= 'f') || ('A' <= c <= 'F')
}

/// The value of the hexadecimal digit `c`.
pub open spec fn hex_digit_value(c: char) -> int {
    if '0' <= c <= '9' {
        c as int - '0' as int
    } else if 'a' <= c <= 'f' {
        c as int - 'a' as int + 10
    } else {
        c as int - 'A' as int + 10
    }
}

/// The value of the hexadecimal digits `d`.
pub open spec fn hex_value(d: Seq<char>) -> int
    decreases d.len(),
{
    if d.len() == 0 {
        0
    } else {
        hex_value(d.drop_last()) * 16 + hex_digit_value(d.last())
    }
}

/// The four characters `s` form a number in base 16 as `u16::from_str_radix` reads it: four
/// digits, or a `+` and three digits.
pub open spec fn is_hex4(s: Seq<char>) -> bool {
    &&& s.len() == 4
    &&& if s[0] == '+' {
        forall|i: int| 1 <= i < 4 ==> is_hex_digit(#[trigger] s[i])
    } else {
        forall|i: int| 0 <= i < 4 ==> is_hex_digit(#[trigger] s[i])
    }
}

/// The number that the four characters `s` form in base 16.
pub open spec fn hex4_value(s: Seq<char>) -> int {
    if s[0] == '+' {
        hex_value(s.subrange(1, 4))
    } else {
        hex_value(s)
    }
}

/// `l` begins with `p`.
pub open spec fn begins_with(l: Seq<char>, p: Seq<char>) -> bool {
    p.len() <= l.len() && l.subrange(0, p.len() as int) == p
}

/// The first `n` characters of `l` exist and are ASCII.
pub open spec fn ascii_prefix(l: Seq<char>, n: int) -> bool {
    n <= l.len() && forall|i: int| 0 <= i < n ==> (#[trigger] l[i]) as int <= 0x7f
}

/// A line that the parser reads: neither a comment nor empty.
pub open spec fn is_entry(l: Seq<char>) -> bool {
    l.len() > 0 && l[0] != '#'
}

/// The parser's state: the vendors done, the vendor being read and the device being read.
pub type ParseState = (Seq<VendorView>, Option<VendorView>, Option<DeviceView>);

/// The state after the device being read is added to the vendor being read; `None` when
/// there is a device and no vendor.
pub open spec fn flush_device(st: ParseState) -> Option<ParseState> {
    match st.2 {
        None => Some(st),
        Some(d) => match st.1 {
            None => None,
            Some(v) => Some((st.0, Some((v.0, v.1, v.2.push(d))), None)),
        },
    }
}

/// The state after the entry line `l`; `None` when the line is malformed or misplaced.
pub open spec fn parse_line(st: ParseState, l: Seq<char>) -> Option<ParseState> {
    if !begins_with(l, seq!['\t']) {
        if !(ascii_prefix(l, 5) && is_hex4(l.subrange(0, 4))) {
            None
        } else {
            match flush_device(st) {
                None => None,
                Some(s) => {
                    let done = match s.1 {
                        Some(v) => s.0.push(v),
                        None => s.0,
                    };
                    Some((done, Some((hex4_value(l.subrange(0, 4)) as u16, l.subrange(5, l.len() as int), Seq::empty())), None))
                },
            }
        }
    } else if begins_with(l, seq!['\t', '\t']) {
        if !(ascii_prefix(l, 12) && is_hex4(l.subrange(2, 6)) && is_hex4(l.subrange(7, 11))) {
            None
        } else {
            match st.2 {
                None => None,
                Some(d) => Some((st.0, st.1, Some((d.0, d.1, d.2.push((hex4_value(l.subrange(2, 6)) as u16, hex4_value(l.subrange(7, 11)) as u16, l.subrange(12, l.len() as int))))))),
            }
        }
    } else if !(ascii_prefix(l, 6) && is_hex4(l.subrange(1, 5))) {
        None
    } else {
        match flush_device(st) {
            None => None,
            Some(s) => Some((s.0, s.1, Some((hex4_value(l.subrange(1, 5)) as u16, l.subrange(6, l.len() as int), Seq::empty())))),
        }
    }
}

/// The state after the lines from `k` on, starting in `st`: comments and empty lines are
/// skipped, and reading stops at the first line of the class codes (`"C "`).
pub open spec fn parse_from(lines: Seq<Seq<char>>, k: int, st: ParseState) -> Option<ParseState>
    decreases lines.len() - k,
{
    if k < 0 || k >= lines.len() {
        Some(st)
    } else if !is_entry(lines[k]) {
        parse_from(lines, k + 1, st)
    } else if begins_with(lines[k], seq!['C', ' ']) {
        Some(st)
    } else {
        match parse_line(st, lines[k]) {
            None => None,
            Some(s) => parse_from(lines, k + 1, s),
        }
    }
}

/// The vendors of the final state, once the device and the vendor being read are added.
pub open spec fn finish(st: ParseState) -> Option<Seq<VendorView>> {
    match flush_device(st) {
        None => None,
        Some(s) => Some(
            match s.1 {
                Some(v) => s.0.push(v),
                None => s.0,
            },
        ),
    }
}

/// The vendors that the database lines `lines` describe, or `None` when a line the parser
/// reads is malformed or misplaced.
pub open spec fn pci_ids_spec(lines: Seq<Seq<char>>) -> Option<Seq<VendorView>> {
    match parse_from(lines, 0, (Seq::empty(), None, None)) {
        None => None,
        Some(st) => finish(st),
    }
}

/// One entry of the database: a vendor or a device with its id and name, or a subsystem.
pub enum IdsEntry {
    Vendor(u16, Seq<char>),
    Device(u16, Seq<char>),
    Subsystem(SubDeviceView),
}

/// The entries of the subsystems `ss`, in order.
pub open spec fn subsystem_entries(ss: Seq<SubDeviceView>) -> Seq<IdsEntry> {
    ss.map_values(|s: SubDeviceView| IdsEntry::Subsystem(s))
}

/// The entries of the devices `ds`, in order: each device followed by its subsystems.
pub open spec fn device_entries(ds: Seq<DeviceView>) -> Seq<IdsEntry>
    decreases ds.len(),
{
    if ds.len() == 0 {
        Seq::empty()
    } else {
        device_entries(ds.drop_last()) + seq![IdsEntry::Device(ds.last().0, ds.last().1)]
            + subsystem_entries(ds.last().2)
    }
}

/// The entries of the vendors `vs`, in order: each vendor followed by its devices.
pub open spec fn vendor_entries(vs: Seq<VendorView>) -> Seq<IdsEntry>
    decreases vs.len(),
{
    if vs.len() == 0 {
        Seq::empty()
    } else {
        vendor_entries(vs.drop_last()) + seq![IdsEntry::Vendor(vs.last().0, vs.last().1)]
            + device_entries(vs.last().2)
    }
}


/// A vendor line: an entry that does not begin with a tab.
pub open spec fn is_vendor_line(l: Seq<char>) -> bool {
    is_entry(l) && !begins_with(l, seq!['\t'])
}

/// A device line: it begins with one tab, not two.
pub open spec fn is_device_line(l: Seq<char>) -> bool {
    begins_with(l, seq!['\t']) && !begins_with(l, seq!['\t', '\t'])
}

/// A subsystem line: it begins with two tabs.
pub open spec fn is_subsystem_line(l: Seq<char>) -> bool {
    begins_with(l, seq!['\t', '\t'])
}

/// The id (the four digits at the start) and the name (after one more character) of a vendor
/// line.
pub open spec fn line_vendor(l: Seq<char>) -> (u16, Seq<char>) {
    (hex4_value(l.subrange(0, 4)) as u16, l.subrange(5, l.len() as int))
}

/// The id (the four digits after the tab) and the name (after one more character) of a device
/// line.
pub open spec fn line_device(l: Seq<char>) -> (u16, Seq<char>) {
    (hex4_value(l.subrange(1, 5)) as u16, l.subrange(6, l.len() as int))
}

/// The subsystem vendor, the subsystem id (the two groups of four digits after the tabs) and
/// the name of a subsystem line.
pub open spec fn line_subsystem(l: Seq<char>) -> SubDeviceView {
    (hex4_value(l.subrange(2, 6)) as u16, hex4_value(l.subrange(7, 11)) as u16, l.subrange(12, l.len() as int))
}

/// The entry that the line `l` declares: none for a comment or an empty line.
pub open spec fn line_entry(l: Seq<char>) -> Seq<IdsEntry> {
    if is_vendor_line(l) {
        seq![IdsEntry::Vendor(line_vendor(l).0, line_vendor(l).1)]
    } else if is_subsystem_line(l) {
        seq![IdsEntry::Subsystem(line_subsystem(l))]
    } else if is_device_line(l) {
        seq![IdsEntry::Device(line_device(l).0, line_device(l).1)]
    } else {
        Seq::empty()
    }
}

/// The entries that the lines before `k` declare, in the order of the lines.
pub open spec fn line_entries(lines: Seq<Seq<char>>, k: int) -> Seq<IdsEntry>
    decreases k,
{
    if k <= 0 {
        Seq::empty()
    } else {
        line_entries(lines, k - 1) + line_entry(lines[k - 1])
    }
}

/// The index of the first line from `k` on where reading stops: the first entry that begins
/// the class codes (`"C "`), or the end of the lines.
pub open spec fn read_end(lines: Seq<Seq<char>>, k: int) -> int
    decreases lines.len() - k,
{
    if k >= lines.len() {
        lines.len() as int
    } else if is_entry(lines[k]) && begins_with(lines[k], seq!['C', ' ']) {
        k
    } else {
        read_end(lines, k + 1)
    }
}

/// The entries that the parser's state holds: the vendors done, then the vendor being read
/// with its devices done, then the device being read with its subsystems.
pub open spec fn state_entries(st: ParseState) -> Seq<IdsEntry> {
    vendor_entries(st.0) + match st.1 {
        Some(v) => seq![IdsEntry::Vendor(v.0, v.1)] + device_entries(v.2),
        None => Seq::empty(),
    } + match st.2 {
        Some(d) => seq![IdsEntry::Device(d.0, d.1)] + subsystem_entries(d.2),
        None => Seq::empty(),
    }
}

/// Adding the device being read to the vendor being read keeps the entries of the state.
proof fn lemma_flush_entries(st: ParseState)
    requires
        flush_device(st) is Some,
    ensures
        state_entries(flush_device(st)->0) == state_entries(st),
        (flush_device(st)->0).2 is None,
{
    if let Some(d) = st.2 {
        let v = st.1->0;
        let ds = v.2.push(d);
        assert(ds.drop_last() =~= v.2);
        assert(device_entries(ds) == device_entries(v.2) + seq![IdsEntry::Device(d.0, d.1)]
            + subsystem_entries(d.2));
        assert(state_entries(flush_device(st)->0) =~= state_entries(st));
    } else {
        assert(flush_device(st)->0 == st);
    }
}

/// Moving the vendor being read to the vendors done keeps the entries.
proof fn lemma_close_vendor_entries(vs: Seq<VendorView>, v: VendorView)
    ensures
        vendor_entries(vs.push(v)) == vendor_entries(vs) + seq![IdsEntry::Vendor(v.0, v.1)]
            + device_entries(v.2),
{
    assert(vs.push(v).drop_last() =~= vs);
}

/// Reading one entry line adds the entry that the line declares, at the end.
proof fn lemma_parse_line_entries(st: ParseState, l: Seq<char>)
    requires
        is_entry(l),
        parse_line(st, l) is Some,
    ensures
        state_entries(parse_line(st, l)->0) == state_entries(st) + line_entry(l),
{
    let next = parse_line(st, l)->0;
    if !begins_with(l, seq!['\t']) {
        assert(!begins_with(l, seq!['\t', '\t'])) by {
            if begins_with(l, seq!['\t', '\t']) {
                assert(l.subrange(0, 2)[0] == '\t');
                assert(l.subrange(0, 1) =~= seq!['\t']);
            }
        }
        lemma_flush_entries(st);
        let s = flush_device(st)->0;
        if let Some(v) = s.1 {
            lemma_close_vendor_entries(s.0, v);
        }
        assert(device_entries(Seq::<DeviceView>::empty()) =~= Seq::<IdsEntry>::empty());
        assert(state_entries(next) =~= state_entries(s) + line_entry(l));
    } else if begins_with(l, seq!['\t', '\t']) {
        let d = st.2->0;
        let sub = line_subsystem(l);
        assert(subsystem_entries(d.2.push(sub)) =~= subsystem_entries(d.2) + seq![IdsEntry::Subsystem(sub)]);
        assert(state_entries(next) =~= state_entries(st) + line_entry(l));
    } else {
        lemma_flush_entries(st);
        let s = flush_device(st)->0;
        assert(subsystem_entries(Seq::<SubDeviceView>::empty()) =~= Seq::<IdsEntry>::empty());
        assert(state_entries(next) =~= state_entries(s) + line_entry(l));
    }
}

/// Reading the lines from `k` on adds, up to where reading stops, the entries those lines
/// declare.
proof fn lemma_parse_from_entries(lines: Seq<Seq<char>>, k: int, st: ParseState)
    requires
        0 <= k <= lines.len(),
        state_entries(st) == line_entries(lines, k),
    ensures
        parse_from(lines, k, st) matches Some(fin) ==> state_entries(fin) == line_entries(
            lines,
            read_end(lines, k),
        ),
    decreases lines.len() - k,
{
    if k < lines.len() {
        let l = lines[k];
        assert(lines[k + 1 - 1] == l);
        if !is_entry(l) {
            assert(!begins_with(l, seq!['\t'])) by {
                if begins_with(l, seq!['\t']) {
                    assert(l.subrange(0, 1)[0] == '\t');
                }
            }
            assert(!begins_with(l, seq!['\t', '\t'])) by {
                if begins_with(l, seq!['\t', '\t']) {
                    assert(l.subrange(0, 2)[0] == '\t');
                }
            }
            assert(line_entries(lines, k + 1) =~= line_entries(lines, k));
            lemma_parse_from_entries(lines, k + 1, st);
        } else if begins_with(l, seq!['C', ' ']) {
        } else if let Some(s) = parse_line(st, l) {
            lemma_parse_line_entries(st, l);
            lemma_parse_from_entries(lines, k + 1, s);
        }
    }
}

/// The law of the parser: when the database parses, the result, read as vendor, its devices,
/// each device followed by its subsystems, gives back exactly the entries that the lines read
/// (those before the class codes) declare, in the order of the lines, each with the id and
/// name its line gives. So every device belongs to the vendor line above it and every
/// subsystem to the device line above it, a device holds one subsystem for each subsystem
/// line under it, and no entry is dropped, moved, merged or repeated, the last one before
/// the end of the input included.
pub proof fn lemma_pci_ids_law(lines: Seq<Seq<char>>)
    ensures
        pci_ids_spec(lines) matches Some(vs) ==> vendor_entries(vs) == line_entries(
            lines,
            read_end(lines, 0),
        ),
{
    let st0: ParseState = (Seq::empty(), None, None);
    assert(state_entries(st0) =~= line_entries(lines, 0));
    lemma_parse_from_entries(lines, 0, st0);
    if let Some(fin) = parse_from(lines, 0, st0) {
        if flush_device(fin) is Some {
            lemma_flush_entries(fin);
            let s = flush_device(fin)->0;
            if let Some(v) = s.1 {
                lemma_close_vendor_entries(s.0, v);
                assert(vendor_entries(s.0.push(v)) =~= state_entries(s));
            } else {
                assert(vendor_entries(s.0) =~= state_entries(s));
            }
        }
    }
}


/// A vendor line comes before line `k`.
pub open spec fn seen_vendor(lines: Seq<Seq<char>>, k: int) -> bool
    decreases k,
{
    k > 0 && (is_vendor_line(lines[k - 1]) || seen_vendor(lines, k - 1))
}

/// A device line comes before line `k`, with no vendor line after it.
pub open spec fn device_open(lines: Seq<Seq<char>>, k: int) -> bool
    decreases k,
{
    k > 0 && !is_vendor_line(lines[k - 1]) && (is_device_line(lines[k - 1]) || device_open(lines, k - 1))
}

/// Line `k` is well formed and well placed: a vendor line begins with four hexadecimal
/// digits, a device line with a tab and four digits and comes after a vendor line, a
/// subsystem line with two tabs and two groups of four digits and comes under a device line;
/// comments and empty lines are always fine.
pub open spec fn line_ok(lines: Seq<Seq<char>>, k: int) -> bool {
    let l = lines[k];
    if !is_entry(l) {
        true
    } else if is_vendor_line(l) {
        ascii_prefix(l, 5) && is_hex4(l.subrange(0, 4))
    } else if is_subsystem_line(l) {
        &&& ascii_prefix(l, 12)
        &&& is_hex4(l.subrange(2, 6))
        &&& is_hex4(l.subrange(7, 11))
        &&& device_open(lines, k)
    } else {
        ascii_prefix(l, 6) && is_hex4(l.subrange(1, 5)) && seen_vendor(lines, k)
    }
}

/// Every line from `a` up to `b` is well formed and well placed.
pub open spec fn lines_ok(lines: Seq<Seq<char>>, a: int, b: int) -> bool {
    forall|j: int| a <= j < b ==> #[trigger] line_ok(lines, j)
}

/// The state holds a vendor exactly when one was read, a device exactly when one is open,
/// and no device without a vendor.
pub open spec fn state_matches(lines: Seq<Seq<char>>, k: int, st: ParseState) -> bool {
    &&& st.1 is Some <==> seen_vendor(lines, k)
    &&& st.2 is Some <==> device_open(lines, k)
    &&& st.2 is Some ==> st.1 is Some
}

/// From a state with a device and no vendor, the parse never succeeds.
proof fn lemma_doomed(lines: Seq<Seq<char>>, k: int, st: ParseState)
    requires
        0 <= k <= lines.len(),
        st.1 is None,
        st.2 is Some,
    ensures
        parse_from(lines, k, st) matches Some(fin) ==> finish(fin) is None,
    decreases lines.len() - k,
{
    if k < lines.len() {
        let l = lines[k];
        if !is_entry(l) {
            lemma_doomed(lines, k + 1, st);
        } else if begins_with(l, seq!['C', ' ']) {
        } else if let Some(s) = parse_line(st, l) {
            assert(begins_with(l, seq!['\t', '\t']));
            lemma_doomed(lines, k + 1, s);
        }
    }
}

/// A line that begins with two tabs begins with a tab, and one that begins with a tab is an
/// entry.
proof fn lemma_two_tabs(l: Seq<char>)
    ensures
        begins_with(l, seq!['\t', '\t']) ==> begins_with(l, seq!['\t']),
        begins_with(l, seq!['\t']) ==> is_entry(l),
{
    if begins_with(l, seq!['\t', '\t']) {
        assert(l.subrange(0, 2)[0] == '\t');
        assert(l.subrange(0, 1) =~= seq!['\t']);
    }
    if begins_with(l, seq!['\t']) {
        assert(l.subrange(0, 1)[0] == '\t');
    }
}

/// Reading stops at line `k` or after it.
proof fn lemma_read_end_after(lines: Seq<Seq<char>>, k: int)
    requires
        0 <= k <= lines.len(),
    ensures
        k <= read_end(lines, k) <= lines.len(),
    decreases lines.len() - k,
{
    if k < lines.len() {
        lemma_read_end_after(lines, k + 1);
    }
}

/// From a state that matches the lines before `k`, the parse succeeds exactly when every
/// line from `k` up to where reading stops is well formed and well placed.
proof fn lemma_parse_ok(lines: Seq<Seq<char>>, k: int, st: ParseState)
    requires
        0 <= k <= lines.len(),
        state_matches(lines, k, st),
    ensures
        (parse_from(lines, k, st) matches Some(fin) && finish(fin) is Some) <==> lines_ok(
            lines,
            k,
            read_end(lines, k),
        ),
    decreases lines.len() - k,
{
    if k >= lines.len() {
        assert(read_end(lines, k) == lines.len());
    } else {
        let l = lines[k];
        lemma_two_tabs(l);
        assert(lines[k + 1 - 1] == l);
        if is_entry(l) && begins_with(l, seq!['C', ' ']) {
            assert(read_end(lines, k) == k);
        } else {
            assert(read_end(lines, k) == read_end(lines, k + 1));
            let e = read_end(lines, k);
            lemma_read_end_after(lines, k + 1);
            assert(lines_ok(lines, k, e) <==> (line_ok(lines, k) && lines_ok(lines, k + 1, e))) by {
                if line_ok(lines, k) && lines_ok(lines, k + 1, e) {
                    assert forall|j: int| k <= j < e implies #[trigger] line_ok(lines, j) by {
                        if j > k {
                            assert(line_ok(lines, j));
                        }
                    }
                }
            }
            if !is_entry(l) {
                assert(!is_vendor_line(l));
                assert(!is_device_line(l));
                lemma_parse_ok(lines, k + 1, st);
            } else if let Some(s) = parse_line(st, l) {
                if line_ok(lines, k) {
                    assert(state_matches(lines, k + 1, s));
                    lemma_parse_ok(lines, k + 1, s);
                } else {
                    assert(!begins_with(l, seq!['\t', '\t']));
                    assert(begins_with(l, seq!['\t']));
                    assert(!seen_vendor(lines, k));
                    lemma_doomed(lines, k + 1, s);
                }
            } else {
                assert(!line_ok(lines, k));
            }
        }
    }
}

/// When the database parses: exactly when every line read (those before the class codes) is
/// well formed and well placed, as `line_ok` says.
pub proof fn lemma_pci_ids_accepts(lines: Seq<Seq<char>>)
    ensures
        pci_ids_spec(lines) is Some <==> lines_ok(lines, 0, read_end(lines, 0)),
{
    let st0: ParseState = (Seq::empty(), None, None);
    lemma_parse_ok(lines, 0, st0);
}

/// The characters of each line.
pub open spec fn line_chars(lines: Seq<String>) -> Seq<Seq<char>> {
    lines.map_values(|l: String| l@)
}

/// Whether `l` begins with the characters of `p`.
fn line_begins_with(l: &str, p: &str) -> (r: bool)
    ensures
        r == begins_with(l@, p@),
{
    let n = l.unicode_len();
    let m = p.unicode_len();
    if m > n {
        return false;
    }
    let mut i: usize = 0;
    while i < m
        invariant
            n == l@.len(),
            m == p@.len(),
            m <= n,
            i <= m,
            forall|j: int| 0 <= j < i ==> l@[j] == p@[j],
        decreases m - i,
    {
        if l.get_char(i) != p.get_char(i) {
            proof {
                assert(l@.subrange(0, m as int)[i as int] != p@[i as int]);
            }
            return false;
        }
        i = i + 1;
    }
    proof {
        assert(l@.subrange(0, m as int) =~= p@);
    }
    true
}

/// Whether the first `n` characters of `l` exist and are ASCII.
fn line_ascii_prefix(l: &str, n: usize) -> (r: bool)
    ensures
        r == ascii_prefix(l@, n as int),
{
    let len = l.unicode_len();
    if n > len {
        return false;
    }
    let mut i: usize = 0;
    while i < n
        invariant
            len == l@.len(),
            n <= len,
            i <= n,
            forall|j: int| 0 <= j < i ==> (#[trigger] l@[j]) as int <= 0x7f,
        decreases n - i,
    {
        let c = l.get_char(i);
        if c as u32 > 0x7f {
            return false;
        }
        i = i + 1;
    }
    true
}

/// The value of the hexadecimal digit `c`, or `None` for another character.
fn hex_digit(c: char) -> (r: Option<u16>)
    ensures
        r is Some <==> is_hex_digit(c),
        r matches Some(v) ==> v == hex_digit_value(c) && v < 16,
{
    if '0' <= c && c <= '9' {
        Some((c as u32 - '0' as u32) as u16)
    } else if 'a' <= c && c <= 'f' {
        Some((c as u32 - 'a' as u32 + 10) as u16)
    } else if 'A' <= c && c <= 'F' {
        Some((c as u32 - 'A' as u32 + 10) as u16)
    } else {
        None
    }
}

/// `16^n`.
pub open spec fn pow16(n: nat) -> nat
    decreases n,
{
    if n == 0 {
        1
    } else {
        16 * pow16((n - 1) as nat)
    }
}

/// The number that the characters `from..from + 4` of `l` form in base 16, or `None` when
/// they do not form one.
fn read_hex(l: &str, from: usize) -> (r: Option<u16>)
    requires
        from + 4 <= l@.len(),
    ensures
        r is Some <==> is_hex4(l@.subrange(from as int, from + 4)),
        r matches Some(v) ==> v == hex4_value(l@.subrange(from as int, from + 4)),
{
    let ghost s = l@.subrange(from as int, from + 4);
    let len = l.unicode_len();
    let first = l.get_char(from);
    assert(first == s[0]);
    let start: usize = if first == '+' {
        1
    } else {
        0
    };
    let mut v: u16 = 0;
    let mut i: usize = start;
    while i < 4
        invariant
            s == l@.subrange(from as int, from + 4),
            from + 4 <= l@.len(),
            len == l@.len(),
            start == (if s[0] == '+' { 1usize } else { 0usize }),
            start <= i <= 4,
            forall|j: int| start <= j < i ==> is_hex_digit(#[trigger] s[j]),
            v == hex_value(s.subrange(start as int, i as int)),
            v < pow16((i - start) as nat),
        decreases 4 - i,
    {
        let c = l.get_char(from + i);
        assert(c == s[i as int]);
        let d = match hex_digit(c) {
            Some(d) => d,
            None => {
                return None;
            },
        };
        proof {
            assert(s.subrange(start as int, i + 1).drop_last() =~= s.subrange(start as int, i as int));
            let p = pow16((i - start) as nat);
            assert(pow16((i + 1 - start) as nat) == 16 * p);
            assert(v * 16 + d < 16 * p) by (nonlinear_arith)
                requires
                    v < p,
                    d < 16,
            ;
            assert(pow16(4) == 65536) by {
                reveal_with_fuel(pow16, 5);
            }
            assert(16 * p <= 65536) by {
                reveal_with_fuel(pow16, 5);
            }
        }
        v = v * 16 + d;
        i = i + 1;
    }
    proof {
        if start == 1 {
            assert(s.subrange(1, 4) =~= s.subrange(start as int, 4));
        } else {
            assert(s.subrange(0, 4) =~= s);
        }
    }
    Some(v)
}

/// The parser's state that the vendors done, the vendor being read and the device being read
/// stand for.
pub open spec fn state_of(vendors: Seq<Vendor>, cv: Option<Vendor>, cd: Option<Device>) -> ParseState {
    (
        vendors.map_values(|v: Vendor| v@),
        match cv {
            Some(v) => Some(v@),
            None => None,
        },
        match cd {
            Some(d) => Some(d@),
            None => None,
        },
    )
}

/// Adds the device being read to the vendor being read; `false` when there is a device and no
/// vendor.
fn flush(cv: &mut Option<Vendor>, cd: &mut Option<Device>) -> (ok: bool)
    ensures
        ({
            let before = state_of(Seq::empty(), *old(cv), *old(cd));
            match flush_device(before) {
                None => !ok,
                Some(s) => ok && state_of(Seq::empty(), *final(cv), *final(cd)) == s,
            }
        }),
{
    match cd.take() {
        None => true,
        Some(device) => match cv.take() {
            None => false,
            Some(mut v) => {
                v.push_device(device);
                *cv = Some(v);
                true
            },
        },
    }
}

/// Parses the lines of the PCI ID database into its vendors, with their devices and
/// subsystems. Comments and empty lines are skipped, and parsing stops at the class codes.
/// Returns `None` when a line is malformed (an id that is not four hexadecimal digits, or a
/// line too short for its fields) or misplaced (a subsystem outside a device, a device whose
/// predecessor has no vendor).
pub fn parse_pci_ids(lines: &Vec<String>) -> (r: Option<Vec<Vendor>>)
    ensures
        match pci_ids_spec(line_chars(lines@)) {
            None => r is None,
            Some(vs) => r matches Some(v) && v@.map_values(|x: Vendor| x@) == vs,
        },
{
    let ghost ls = line_chars(lines@);
    let mut vendors: Vec<Vendor> = Vec::new();
    let mut current_vendor: Option<Vendor> = None;
    let mut current_device: Option<Device> = None;
    let mut k: usize = 0;
    proof {
        assert(vendors@.map_values(|v: Vendor| v@) =~= Seq::<VendorView>::empty());
    }
    while k < lines.len()
        invariant
            ls == line_chars(lines@),
            k <= lines@.len(),
            parse_from(ls, 0, (Seq::empty(), None, None)) == parse_from(ls, k as int, state_of(vendors@, current_vendor, current_device)),
        ensures
            parse_from(ls, 0, (Seq::empty(), None, None)) == Some(state_of(vendors@, current_vendor, current_device)),
        decreases lines@.len() - k,
    {
        let line = lines[k].as_str();
        assert(line@ == ls[k as int]);
        let len = line.unicode_len();
        if len == 0 || line.get_char(0) == '#' {
            k = k + 1;
            continue;
        }
        if line_begins_with(line, "C ") {
            proof {
                reveal_strlit("C ");
                assert("C "@ =~= seq!['C', ' ']);
            }
            break;
        }
        proof {
            reveal_strlit("C ");
            reveal_strlit("\t");
            reveal_strlit("\t\t");
            assert("C "@ =~= seq!['C', ' ']);
            assert("\t"@ =~= seq!['\t']);
            assert("\t\t"@ =~= seq!['\t', '\t']);
        }
        let ghost st = state_of(vendors@, current_vendor, current_device);
        if !line_begins_with(line, "\t") {
            if !line_ascii_prefix(line, 5) {
                return None;
            }
            let id = match read_hex(line, 0) {
                Some(v) => v,
                None => {
                    return None;
                },
            };
            let ghost vs = vendors@;
            if !flush(&mut current_vendor, &mut current_device) {
                return None;
            }
            match current_vendor.take() {
                Some(v) => {
                    vendors.push(v);
                },
                None => {},
            }
            let name = String::from_str(line.substring_char(5, len));
            let devices: Vec<Device> = Vec::new();
            proof {
                assert(devices@.map_values(|d: Device| d@) =~= Seq::<DeviceView>::empty());
            }
            current_vendor = Some(Vendor::new(id, name, devices));
            proof {
                let s = flush_device(st)->Some_0;
                assert(vendors@.map_values(|v: Vendor| v@) =~= match s.1 {
                    Some(v) => s.0.push(v),
                    None => s.0,
                });
            }
            k = k + 1;
            continue;
        }
        if line_begins_with(line, "\t\t") {
            if !line_ascii_prefix(line, 12) {
                return None;
            }
            let subvendor = match read_hex(line, 2) {
                Some(v) => v,
                None => {
                    return None;
                },
            };
            let id = match read_hex(line, 7) {
                Some(v) => v,
                None => {
                    return None;
                },
            };
            match current_device.take() {
                None => {
                    return None;
                },
                Some(mut device) => {
                    let name = String::from_str(line.substring_char(12, len));
                    device.push_subdevice(SubDevice::new(subvendor, id, name));
                    current_device = Some(device);
                },
            }
            k = k + 1;
            continue;
        }
        if !line_ascii_prefix(line, 6) {
            return None;
        }
        let id = match read_hex(line, 1) {
            Some(v) => v,
            None => {
                return None;
            },
        };
        if !flush(&mut current_vendor, &mut current_device) {
            return None;
        }
        let name = String::from_str(line.substring_char(6, len));
        let subdevices: Vec<SubDevice> = Vec::new();
        proof {
            assert(subdevices@.map_values(|s: SubDevice| s@) =~= Seq::<SubDeviceView>::empty());
        }
        current_device = Some(Device::new(id, name, subdevices));
        k = k + 1;
    }
    if !flush(&mut current_vendor, &mut current_device) {
        return None;
    }
    let ghost st = state_of(vendors@, current_vendor, current_device);
    match current_vendor.take() {
        Some(v) => {
            vendors.push(v);
        },
        None => {},
    }
    proof {
        assert(vendors@.map_values(|v: Vendor| v@) =~= match st.1 {
            Some(v) => st.0.push(v),
            None => st.0,
        });
    }
    Some(vendors)
}

/// Lays data out in a binary image; the data is addressed relative to an offset that is set
/// once the image's layout is known.
pub struct BinaryOffsetAllocator {
    buf: Vec<u8>,
    offset: u32,
}

/// The place of data pushed to a [`BinaryOffsetAllocator`], relative to its offset.
#[derive(Clone, Copy, Debug)]
pub struct BinaryPtr {
    ptr: u32,
}

impl BinaryPtr {
    /// The position of the data in the allocator's buffer.
    pub closed spec fn view(&self) -> u32 {
        self.ptr
    }

    /// The address of the data: its position plus the allocator's current offset, which must
    /// fit a `u32`.
    pub fn get(&self, alloc: &BinaryOffsetAllocator) -> (r: u32)
        requires
            self@ + alloc.spec_offset() <= u32::MAX,
        ensures
            r == self@ + alloc.spec_offset(),
    {
        self.ptr + alloc.offset
    }
}

impl BinaryOffsetAllocator {
    /// The bytes laid out so far.
    pub closed spec fn spec_buf(&self) -> Seq<u8> {
        self.buf@
    }

    /// The offset.
    pub closed spec fn spec_offset(&self) -> u32 {
        self.offset
    }

    /// An empty allocator with a zero offset.
    pub fn new() -> (r: BinaryOffsetAllocator)
        ensures
            r.spec_buf() == Seq::<u8>::empty(),
            r.spec_offset() == 0,
    {
        BinaryOffsetAllocator { buf: Vec::new(), offset: 0 }
    }

    /// Appends `data` and returns its position, truncated to 32 bits.
    pub fn push_data(&mut self, data: &[u8]) -> (r: BinaryPtr)
        ensures
            final(self).spec_buf() == old(self).spec_buf() + data@,
            final(self).spec_offset() == old(self).spec_offset(),
            r@ == old(self).spec_buf().len() as u32,
    {
        let start = self.buf.len();
        self.buf.extend_from_slice(data);
        proof {
            assert(self.buf@ =~= old(self).spec_buf() + data@);
        }
        BinaryPtr { ptr: start as u32 }
    }

    /// Sets the offset.
    pub fn set_offset(&mut self, offset: u32)
        ensures
            final(self).spec_offset() == offset,
            final(self).spec_buf() == old(self).spec_buf(),
    {
        self.offset = offset;
    }

    /// The bytes laid out so far.
    pub fn buffer(&self) -> (r: &[u8])
        ensures
            r@ == self.spec_buf(),
    {
        self.buf.as_slice()
    }
}

/// Lays null-terminated strings out in a binary image; the strings are addressed relative to
/// an offset that is set once the image's layout is known.
pub struct BinaryStringAllocator {
    buffer: Vec<u8>,
    offset: u32,
}

/// The place of a string pushed to a [`BinaryStringAllocator`], relative to its offset.
#[derive(Clone, Copy, Debug)]
pub struct StringPtr {
    ptr: u32,
}

impl StringPtr {
    /// The position of the string in the allocator's buffer.
    pub closed spec fn view(&self) -> u32 {
        self.ptr
    }

    /// The address of the string: its position plus the allocator's current offset, which
    /// must fit a `u32`.
    pub fn get(&self, alloc: &BinaryStringAllocator) -> (r: u32)
        requires
            self@ + alloc.spec_offset() <= u32::MAX,
        ensures
            r == self@ + alloc.spec_offset(),
    {
        self.ptr + alloc.offset
    }
}

impl BinaryStringAllocator {
    /// The bytes laid out so far.
    pub closed spec fn spec_buf(&self) -> Seq<u8> {
        self.buffer@
    }

    /// The offset.
    pub closed spec fn spec_offset(&self) -> u32 {
        self.offset
    }

    /// An empty allocator with a zero offset.
    pub fn new() -> (r: BinaryStringAllocator)
        ensures
            r.spec_buf() == Seq::<u8>::empty(),
            r.spec_offset() == 0,
    {
        BinaryStringAllocator { buffer: Vec::new(), offset: 0 }
    }

    /// Appends the bytes of `s` and a terminating zero, and returns the position of the
    /// string, truncated to 32 bits.
    pub fn push_data(&mut self, s: &str) -> (r: StringPtr)
        ensures
            final(self).spec_buf() == old(self).spec_buf() + s.spec_bytes() + seq![0u8],
            final(self).spec_offset() == old(self).spec_offset(),
            r@ == old(self).spec_buf().len() as u32,
    {
        let start = self.buffer.len();
        self.buffer.extend_from_slice(s.as_bytes());
        self.buffer.push(0);
        proof {
            assert(self.buffer@ =~= old(self).spec_buf() + s.spec_bytes() + seq![0u8]);
        }
        StringPtr { ptr: start as u32 }
    }

    /// Sets the offset.
    pub fn set_offset(&mut self, offset: u32)
        ensures
            final(self).spec_offset() == offset,
            final(self).spec_buf() == old(self).spec_buf(),
    {
        self.offset = offset;
    }

    /// The bytes laid out so far.
    pub fn buffer(&self) -> (r: &[u8])
        ensures
            r@ == self.spec_buf(),
    {
        self.buffer.as_slice()
    }
}

} // verus!

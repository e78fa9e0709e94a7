//! The registry of machines to wake: reading it from semicolon-separated text,
//! with the hardware-address, IPv4-address and port notations it uses.

use vstd::prelude::*;
use crate::digits::{all_digits, digits_value, parse_unsigned, unsigned_of, PLUS};

verus! {

/// Separator between the octets of a hardware address (`-`).
pub const MAC_SEPARATOR: u8 = 45;

/// Separator between the octets of a dotted-quad address (`.`).
pub const IP_SEPARATOR: u8 = 46;

/// The ASCII digit zero.
pub const ZERO: u8 = 48;

/// The pieces of `s` between occurrences of `sep`, in order; `s` without any
/// `sep` is one piece, and two adjacent separators enclose an empty piece.
pub open spec fn split_on(s: Seq<u8>, sep: u8) -> Seq<Seq<u8>>
    decreases s.len(),
{
    if s.len() == 0 {
        seq![Seq::<u8>::empty()]
    } else {
        let init = split_on(s.drop_last(), sep);
        if s.last() == sep {
            init.push(Seq::<u8>::empty())
        } else {
            init.update(init.len() - 1, init.last().push(s.last()))
        }
    }
}

/// The byte strings of a list of buffers.
pub open spec fn views_of(v: Seq<Vec<u8>>) -> Seq<Seq<u8>> {
    v.map_values(|p: Vec<u8>| p@)
}

/// Splits `s` at every `sep`.
pub fn split_bytes(s: &[u8], sep: u8) -> (r: Vec<Vec<u8>>)
    ensures
        views_of(r@) == split_on(s@, sep),
{
    let mut parts: Vec<Vec<u8>> = Vec::new();
    let mut cur: Vec<u8> = Vec::new();
    let mut i: usize = 0;
    assert(s@.subrange(0, 0) =~= Seq::<u8>::empty());
    assert(views_of(parts@).push(cur@) =~= seq![Seq::<u8>::empty()]);
    while i < s.len()
        invariant
            i <= s.len(),
            views_of(parts@).push(cur@) == split_on(s@.subrange(0, i as int), sep),
        decreases s.len() - i,
    {
        let ghost before = views_of(parts@).push(cur@);
        assert(s@.subrange(0, i + 1).drop_last() =~= s@.subrange(0, i as int));
        if s[i] == sep {
            parts.push(cur);
            cur = Vec::new();
            assert(views_of(parts@).push(cur@) =~= before.push(Seq::<u8>::empty()));
        } else {
            cur.push(s[i]);
            assert(views_of(parts@).push(cur@) =~= before.update(
                before.len() - 1,
                before.last().push(s[i as int]),
            ));
        }
        i = i + 1;
    }
    parts.push(cur);
    assert(s@.subrange(0, s@.len() as int) =~= s@);
    assert(views_of(parts@) =~= split_on(s@, sep));
    parts
}

/// The octet that a hardware-address piece spells: hexadecimal, at most 255.
pub open spec fn mac_octet_of(p: Seq<u8>) -> Option<nat> {
    unsigned_of(p, 16, 255)
}

/// The hardware address that `s` spells: six hexadecimal octets separated by `-`.
pub open spec fn mac_of(s: Seq<u8>) -> Option<Seq<u8>> {
    let parts = split_on(s, MAC_SEPARATOR);
    if parts.len() == 6 && forall|i: int| 0 <= i < 6 ==> (#[trigger] mac_octet_of(parts[i])) is Some {
        Some(Seq::new(6, |i: int| mac_octet_of(parts[i])->0 as u8))
    } else {
        None
    }
}

/// One octet of a dotted quad: one to three decimal digits, without a leading
/// zero unless it is the only digit, and at most 255.
pub open spec fn ip_octet_ok(p: Seq<u8>) -> bool {
    &&& 1 <= p.len() <= 3
    &&& all_digits(p, 10)
    &&& (p.len() > 1 ==> p[0] != ZERO)
    &&& digits_value(p, 10) <= 255
}

/// The IPv4 address that `s` spells as a dotted quad.
pub open spec fn ipv4_of(s: Seq<u8>) -> Option<Seq<u8>> {
    let parts = split_on(s, IP_SEPARATOR);
    if parts.len() == 4 && forall|i: int| 0 <= i < 4 ==> #[trigger] ip_octet_ok(parts[i]) {
        Some(Seq::new(4, |i: int| digits_value(parts[i], 10) as u8))
    } else {
        None
    }
}

/// Reads a hardware address written as six hexadecimal octets joined by `-`
/// (`AA-BB-CC-DD-EE-FF`).
pub fn parse_mac(s: &[u8]) -> (r: Option<[u8; 6]>)
    ensures
        r matches Some(m) ==> mac_of(s@) == Some(m@),
        r is None ==> mac_of(s@) is None,
{
    let parts = split_bytes(s, MAC_SEPARATOR);
    let ghost pv = split_on(s@, MAC_SEPARATOR);
    if parts.len() != 6 {
        return None;
    }
    let mut octets: Vec<u8> = Vec::new();
    let mut i: usize = 0;
    while i < 6
        invariant
            i <= 6,
            parts@.len() == 6,
            pv == views_of(parts@),
            pv == split_on(s@, MAC_SEPARATOR),
            octets@.len() == i,
            forall|j: int| 0 <= j < i ==> (#[trigger] mac_octet_of(pv[j])) is Some && octets@[j]
                == mac_octet_of(pv[j])->0 as u8,
        decreases 6 - i,
    {
        assert(parts@[i as int]@ == pv[i as int]);
        match parse_unsigned(parts[i].as_slice(), 16, 255) {
            None => {
                assert(mac_octet_of(pv[i as int]) is None);
                return None;
            },
            Some(v) => {
                octets.push(v as u8);
            },
        }
        i = i + 1;
    }
    let m: [u8; 6] = [octets[0], octets[1], octets[2], octets[3], octets[4], octets[5]];
    assert(m@ =~= Seq::new(6, |i: int| mac_octet_of(pv[i])->0 as u8));
    Some(m)
}

/// Reads one octet of a dotted quad.
fn parse_ip_octet(p: &[u8]) -> (r: Option<u8>)
    ensures
        r matches Some(v) ==> ip_octet_ok(p@) && v as nat == digits_value(p@, 10),
        r is None ==> !ip_octet_ok(p@),
{
    if p.len() < 1 || p.len() > 3 || p[0] == PLUS || (p.len() > 1 && p[0] == ZERO) {
        proof {
            if p.len() >= 1 && p[0] == PLUS {
                assert(crate::digits::digit_value(p@[0], 10) is None);
            }
        }
        return None;
    }
    assert(crate::digits::unsigned_digits(p@) == p@);
    match parse_unsigned(p, 10, 255) {
        None => None,
        Some(v) => Some(v as u8),
    }
}

/// Reads an IPv4 address written as a dotted quad (`10.0.0.5`).
pub fn parse_ipv4(s: &[u8]) -> (r: Option<[u8; 4]>)
    ensures
        r matches Some(a) ==> ipv4_of(s@) == Some(a@),
        r is None ==> ipv4_of(s@) is None,
{
    let parts = split_bytes(s, IP_SEPARATOR);
    let ghost pv = split_on(s@, IP_SEPARATOR);
    if parts.len() != 4 {
        return None;
    }
    let mut octets: Vec<u8> = Vec::new();
    let mut i: usize = 0;
    while i < 4
        invariant
            i <= 4,
            parts@.len() == 4,
            pv == views_of(parts@),
            pv == split_on(s@, IP_SEPARATOR),
            octets@.len() == i,
            forall|j: int|
                #![trigger pv[j]]
                0 <= j < i ==> ip_octet_ok(pv[j]) && octets@[j]
                == digits_value(pv[j], 10) as u8,
        decreases 4 - i,
    {
        assert(parts@[i as int]@ == pv[i as int]);
        match parse_ip_octet(parts[i].as_slice()) {
            None => {
                assert(!ip_octet_ok(pv[i as int]));
                return None;
            },
            Some(v) => {
                octets.push(v);
            },
        }
        i = i + 1;
    }
    let a: [u8; 4] = [octets[0], octets[1], octets[2], octets[3]];
    assert(a@ =~= Seq::new(4, |i: int| digits_value(pv[i], 10) as u8));
    Some(a)
}

/// What can make a registry fail to load.
#[derive(Debug, Clone, Copy, PartialEq, Eq, Structural)]
pub enum LoadError {
    /// The text is not well-formed delimited data.
    Malformed,
    /// A row lacks the `mac` or the `port` field.
    MissingField,
    /// A `mac` field is not six hexadecimal octets joined by `-`.
    InvalidMac,
    /// A `port` field is not a decimal number from 0 to 65535.
    InvalidPort,
    /// An `ip` field is neither empty nor a dotted quad.
    InvalidIp,
}

impl LoadError {
    /// A sentence that tells an operator what went wrong.
    pub fn message(&self) -> &'static str {
        match self {
            LoadError::Malformed => "the registry is not well-formed semicolon-separated data",
            LoadError::MissingField => "a registry row lacks its mac or port field",
            LoadError::InvalidMac => "invalid MAC address",
            LoadError::InvalidPort => "invalid port",
            LoadError::InvalidIp => "invalid IPv4 address",
        }
    }
}

/// A machine to wake: its hardware address and where its wake payload is sent.
#[derive(Debug, Clone, Copy)]
pub struct Computer {
    pub mac: [u8; 6],
    pub ip: [u8; 4],
    pub port: u16,
}

/// A target as its three parts: hardware address, IPv4 address, port.
pub type TargetView = (Seq<u8>, Seq<u8>, u16);

impl View for Computer {
    type V = TargetView;

    open spec fn view(&self) -> TargetView {
        (self.mac@, self.ip@, self.port)
    }
}

impl Computer {
    /// A machine with hardware address `mac`, woken at `ip`:`port`.
    pub fn new(mac: [u8; 6], ip: [u8; 4], port: u16) -> (r: Computer)
        ensures
            r@ == (mac@, ip@, port),
    {
        Computer { mac, ip, port }
    }

    /// The hardware address.
    pub fn mac(&self) -> (r: [u8; 6])
        ensures
            r@ == self@.0,
    {
        self.mac
    }

    /// The wake payload for this machine.
    pub fn magic_packet(&self) -> (r: Vec<u8>)
        ensures
            r@ == crate::packet::payload_of(self@.0),
    {
        crate::packet::magic_packet(&self.mac)
    }
}

/// The limited-broadcast address, used where a row gives no IPv4 address.
pub open spec fn broadcast_ip() -> Seq<u8> {
    seq![255u8, 255u8, 255u8, 255u8]
}

/// Header name of the hardware-address column.
pub open spec fn mac_column() -> Seq<u8> {
    seq![109u8, 97u8, 99u8]
}

/// Header name of the IPv4-address column.
pub open spec fn ip_column() -> Seq<u8> {
    seq![105u8, 112u8]
}

/// Header name of the port column.
pub open spec fn port_column() -> Seq<u8> {
    seq![112u8, 111u8, 114u8, 116u8]
}

/// Index of the first header cell equal to `name`.
pub open spec fn column_of(header: Seq<Seq<u8>>, name: Seq<u8>) -> Option<int>
    decreases header.len(),
{
    if header.len() == 0 {
        None
    } else {
        match column_of(header.drop_last(), name) {
            Some(i) => Some(i),
            None => if header.last() == name {
                Some(header.len() - 1)
            } else {
                None
            },
        }
    }
}

/// The cell of `row` in column `col`, if the column exists and the row reaches it.
pub open spec fn field_of(row: Seq<Seq<u8>>, col: Option<int>) -> Option<Seq<u8>> {
    match col {
        Some(i) => if 0 <= i < row.len() {
            Some(row[i])
        } else {
            None
        },
        None => None,
    }
}

/// The target that one row describes, given the columns of its fields. The
/// `mac` and `port` fields are required; an absent or empty `ip` field stands
/// for the limited-broadcast address.
pub open spec fn target_from(
    row: Seq<Seq<u8>>,
    mac_col: Option<int>,
    ip_col: Option<int>,
    port_col: Option<int>,
) -> Result<TargetView, LoadError> {
    let mac_field = field_of(row, mac_col);
    let port_field = field_of(row, port_col);
    let ip_field = field_of(row, ip_col);
    if mac_field is None || port_field is None {
        Err(LoadError::MissingField)
    } else if mac_of(mac_field->0) is None {
        Err(LoadError::InvalidMac)
    } else if unsigned_of(port_field->0, 10, 65535) is None {
        Err(LoadError::InvalidPort)
    } else {
        let mac = mac_of(mac_field->0)->0;
        let port = unsigned_of(port_field->0, 10, 65535)->0 as u16;
        if ip_field is None || ip_field->0.len() == 0 {
            Ok((mac, broadcast_ip(), port))
        } else if ipv4_of(ip_field->0) is None {
            Err(LoadError::InvalidIp)
        } else {
            Ok((mac, ipv4_of(ip_field->0)->0, port))
        }
    }
}

/// The target that `row` describes under `header`.
pub open spec fn target_of(header: Seq<Seq<u8>>, row: Seq<Seq<u8>>) -> Result<TargetView, LoadError> {
    target_from(
        row,
        column_of(header, mac_column()),
        column_of(header, ip_column()),
        column_of(header, port_column()),
    )
}

/// The targets that `records` describe under `header`, in order, or the error
/// of the first record that describes none.
pub open spec fn targets_of(header: Seq<Seq<u8>>, records: Seq<Seq<Seq<u8>>>) -> Result<
    Seq<TargetView>,
    LoadError,
>
    decreases records.len(),
{
    if records.len() == 0 {
        Ok(Seq::empty())
    } else {
        match targets_of(header, records.drop_last()) {
            Err(e) => Err(e),
            Ok(ts) => match target_of(header, records.last()) {
                Err(e) => Err(e),
                Ok(t) => Ok(ts.push(t)),
            },
        }
    }
}

/// The registry that a table describes: its first row is the header, each
/// further row one target. A table without rows describes an empty registry.
pub open spec fn registry_of(rows: Seq<Seq<Seq<u8>>>) -> Result<Seq<TargetView>, LoadError> {
    if rows.len() == 0 {
        Ok(Seq::empty())
    } else {
        targets_of(rows[0], rows.drop_first())
    }
}

/// A loaded registry as its targets, or its error.
pub open spec fn loaded_view(r: Result<Vec<Computer>, LoadError>) -> Result<Seq<TargetView>, LoadError> {
    match r {
        Ok(v) => Ok(v@.map_values(|c: Computer| c@)),
        Err(e) => Err(e),
    }
}

/// A table of byte fields as sequences.
pub open spec fn table_view(rows: Seq<Vec<Vec<u8>>>) -> Seq<Seq<Seq<u8>>> {
    rows.map_values(|row: Vec<Vec<u8>>| views_of(row@))
}

/// Once a prefix of the records fails, all of them fail with the same error.
proof fn lemma_error_persists(header: Seq<Seq<u8>>, records: Seq<Seq<Seq<u8>>>, k: int, e: LoadError)
    requires
        0 <= k <= records.len(),
        targets_of(header, records.subrange(0, k)) == Err::<Seq<TargetView>, LoadError>(e),
    ensures
        targets_of(header, records) == Err::<Seq<TargetView>, LoadError>(e),
    decreases records.len() - k,
{
    if k < records.len() {
        assert(records.subrange(0, k + 1).drop_last() =~= records.subrange(0, k));
        lemma_error_persists(header, records, k + 1, e);
    } else {
        assert(records.subrange(0, k) =~= records);
    }
}

/// Once a prefix of the header holds `name`, the whole header finds it there.
proof fn lemma_column_persists(header: Seq<Seq<u8>>, name: Seq<u8>, k: int)
    requires
        0 <= k <= header.len(),
        column_of(header.subrange(0, k), name) is Some,
    ensures
        column_of(header, name) == column_of(header.subrange(0, k), name),
    decreases header.len() - k,
{
    if k < header.len() {
        assert(header.subrange(0, k + 1).drop_last() =~= header.subrange(0, k));
        lemma_column_persists(header, name, k + 1);
    } else {
        assert(header.subrange(0, k) =~= header);
    }
}

fn bytes_equal(a: &[u8], b: &[u8]) -> (r: bool)
    ensures
        r == (a@ == b@),
{
    if a.len() != b.len() {
        return false;
    }
    let mut i: usize = 0;
    while i < a.len()
        invariant
            i <= a.len(),
            a@.len() == b@.len(),
            forall|j: int| 0 <= j < i ==> a@[j] == b@[j],
        decreases a.len() - i,
    {
        if a[i] != b[i] {
            return false;
        }
        i = i + 1;
    }
    assert(a@ =~= b@);
    true
}

/// Finds the first header cell equal to `name`.
fn column_index(header: &Vec<Vec<u8>>, name: &[u8]) -> (r: Option<usize>)
    ensures
        r matches Some(i) ==> column_of(views_of(header@), name@) == Some(i as int),
        r is None ==> column_of(views_of(header@), name@) is None,
{
    let ghost h = views_of(header@);
    let mut i: usize = 0;
    while i < header.len()
        invariant
            i <= header@.len(),
            h == views_of(header@),
            column_of(h.subrange(0, i as int), name@) is None,
        decreases header.len() - i,
    {
        assert(h.subrange(0, i + 1).drop_last() =~= h.subrange(0, i as int));
        if bytes_equal(header[i].as_slice(), name) {
            proof {
                assert(header@[i as int]@ == h[i as int]);
                lemma_column_persists(h, name@, i + 1);
            }
            return Some(i);
        }
        i = i + 1;
    }
    assert(h.subrange(0, i as int) =~= h);
    None
}

/// A column index as an integer.
pub open spec fn col_int(c: Option<usize>) -> Option<int> {
    match c {
        Some(i) => Some(i as int),
        None => None,
    }
}

/// Reads the target of one row, given the columns of its fields.
fn computer_from_row(
    row: &Vec<Vec<u8>>,
    mac_col: Option<usize>,
    ip_col: Option<usize>,
    port_col: Option<usize>,
) -> (r: Result<Computer, LoadError>)
    ensures
        match r {
            Ok(c) => target_from(
                views_of(row@),
                col_int(mac_col),
                col_int(ip_col),
                col_int(port_col),
            ) == Ok::<TargetView, LoadError>(c@),
            Err(e) => target_from(
                views_of(row@),
                col_int(mac_col),
                col_int(ip_col),
                col_int(port_col),
            ) == Err::<TargetView, LoadError>(e),
        },
{
    let ghost rv = views_of(row@);
    let mac_i = match mac_col {
        Some(i) => if i < row.len() {
            i
        } else {
            return Err(LoadError::MissingField);
        },
        None => {
            return Err(LoadError::MissingField);
        },
    };
    let port_i = match port_col {
        Some(i) => if i < row.len() {
            i
        } else {
            return Err(LoadError::MissingField);
        },
        None => {
            return Err(LoadError::MissingField);
        },
    };
    assert(row@[mac_i as int]@ == rv[mac_i as int]);
    assert(row@[port_i as int]@ == rv[port_i as int]);
    let mac = match parse_mac(row[mac_i].as_slice()) {
        Some(m) => m,
        None => {
            return Err(LoadError::InvalidMac);
        },
    };
    let port = match parse_unsigned(row[port_i].as_slice(), 10, 65535) {
        Some(p) => p as u16,
        None => {
            return Err(LoadError::InvalidPort);
        },
    };
    let ip: [u8; 4] = match ip_col {
        Some(i) => if i < row.len() && row[i].len() > 0 {
            assert(row@[i as int]@ == rv[i as int]);
            match parse_ipv4(row[i].as_slice()) {
                Some(a) => a,
                None => {
                    return Err(LoadError::InvalidIp);
                },
            }
        } else {
            [255, 255, 255, 255]
        },
        None => [255, 255, 255, 255],
    };
    proof {
        assert(seq![255u8, 255u8, 255u8, 255u8] =~= broadcast_ip());
    }
    Ok(Computer { mac, ip, port })
}

/// Reads the registry that a table describes: the first row names the columns
/// (`mac`, `ip`, `port`, in any order, others ignored), each further row is one
/// target. Fails with the error of the first row that describes no target.
pub fn registry_from_rows(rows: &Vec<Vec<Vec<u8>>>) -> (r: Result<Vec<Computer>, LoadError>)
    ensures
        loaded_view(r) == registry_of(table_view(rows@)),
{
    let ghost t = table_view(rows@);
    if rows.len() == 0 {
        let empty: Vec<Computer> = Vec::new();
        assert(empty@.map_values(|c: Computer| c@) =~= Seq::<TargetView>::empty());
        return Ok(empty);
    }
    let header = &rows[0];
    assert(views_of(header@) == t[0]);
    let mac_name: [u8; 3] = [109, 97, 99];
    let ip_name: [u8; 2] = [105, 112];
    let port_name: [u8; 4] = [112, 111, 114, 116];
    assert(mac_name@ =~= mac_column());
    assert(ip_name@ =~= ip_column());
    assert(port_name@ =~= port_column());
    let mac_col = column_index(header, mac_name.as_slice());
    let ip_col = column_index(header, ip_name.as_slice());
    let port_col = column_index(header, port_name.as_slice());
    let ghost records = t.drop_first();
    let mut out: Vec<Computer> = Vec::new();
    let mut i: usize = 1;
    assert(records.subrange(0, 0) =~= Seq::<Seq<Seq<u8>>>::empty());
    assert(out@.map_values(|c: Computer| c@) =~= Seq::<TargetView>::empty());
    while i < rows.len()
        invariant
            1 <= i <= rows@.len(),
            t == table_view(rows@),
            records == t.drop_first(),
            col_int(mac_col) == column_of(t[0], mac_column()),
            col_int(ip_col) == column_of(t[0], ip_column()),
            col_int(port_col) == column_of(t[0], port_column()),
            targets_of(t[0], records.subrange(0, i - 1)) == Ok::<Seq<TargetView>, LoadError>(
                out@.map_values(|c: Computer| c@),
            ),
        decreases rows.len() - i,
    {
        let ghost pre = records.subrange(0, i as int);
        assert(pre.drop_last() =~= records.subrange(0, i - 1));
        assert(pre.last() == views_of(rows@[i as int]@));
        match computer_from_row(&rows[i], mac_col, ip_col, port_col) {
            Err(e) => {
                proof {
                    lemma_error_persists(t[0], records, i as int, e);
                }
                return Err(e);
            },
            Ok(c) => {
                let ghost before = out@.map_values(|c: Computer| c@);
                out.push(c);
                assert(out@.map_values(|c: Computer| c@) =~= before.push(c@));
            },
        }
        i = i + 1;
    }
    assert(records.subrange(0, i - 1) =~= records);
    Ok(out)
}

/// Delimiter between the fields of a registry row (`;`).
pub const FIELD_DELIMITER: u8 = 59;

/// The rows and fields that the `csv` crate reads from `text` with `delimiter`
/// between fields, or `None` where it reports an error.
pub uninterp spec fn csv_table_of(text: Seq<u8>, delimiter: u8) -> Option<Seq<Seq<Seq<u8>>>>;

/// A table that may be missing, as sequences.
pub open spec fn table_opt_view(t: Option<Vec<Vec<Vec<u8>>>>) -> Option<Seq<Seq<Seq<u8>>>> {
    match t {
        Some(rows) => Some(table_view(rows@)),
        None => None,
    }
}

/// Relies on csv::Reader::byte_records, reading every row (the first one too)
/// as a record of byte fields; what it yields depends on `text` and `delimiter`
/// alone. Any error it reports becomes `None`.
#[verifier::external_body]
fn read_table(text: &[u8], delimiter: u8) -> (r: Option<Vec<Vec<Vec<u8>>>>)
    ensures
        table_opt_view(r) == csv_table_of(text@, delimiter),
{
    let mut reader = csv::ReaderBuilder::new().has_headers(false).delimiter(delimiter).from_reader(
        text,
    );
    let mut rows: Vec<Vec<Vec<u8>>> = Vec::new();
    for record in reader.byte_records() {
        let record = record.ok()?;
        rows.push(record.iter().map(|field| field.to_vec()).collect());
    }
    Some(rows)
}

/// Loads a registry from semicolon-separated text with a header row naming the
/// `mac`, `ip` and `port` columns.
pub fn load_registry(text: &[u8]) -> (r: Result<Vec<Computer>, LoadError>)
    ensures
        match csv_table_of(text@, FIELD_DELIMITER) {
            None => loaded_view(r) == Err::<Seq<TargetView>, LoadError>(LoadError::Malformed),
            Some(rows) => loaded_view(r) == registry_of(rows),
        },
{
    match read_table(text, FIELD_DELIMITER) {
        None => Err(LoadError::Malformed),
        Some(rows) => registry_from_rows(&rows),
    }
}

} // verus!

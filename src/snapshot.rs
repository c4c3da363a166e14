use vstd::prelude::*;
use vstd::std_specs::iter::IteratorSpec;
use crate::device::{Device, DeviceView};
use crate::error::Error;
use crate::pattern::{Pattern, regex_compiles, regex_first_match};

verus! {

/// The text split at every `'\n'`: one piece more than there are newlines,
/// the newlines themselves dropped.
pub open spec fn pieces(s: Seq<char>) -> Seq<Seq<char>>
    decreases s.len(),
{
    if s.len() == 0 {
        seq![Seq::<char>::empty()]
    } else {
        let p = pieces(s.drop_last());
        if s.last() == '\n' {
            p.push(Seq::<char>::empty())
        } else {
            p.update(p.len() - 1, p.last().push(s.last()))
        }
    }
}

/// Splits the text into its lines, as `pieces` says.
pub fn split_lines(raw: &str) -> (r: Vec<Vec<char>>)
    ensures
        r@.len() == pieces(raw@).len(),
        forall|i: int| 0 <= i < r@.len() ==> (#[trigger] r@[i])@ == pieces(raw@)[i],
{
    let mut it = raw.chars();
    let mut lines: Vec<Vec<char>> = Vec::new();
    let mut cur: Vec<char> = Vec::new();
    let ghost mut seen: Seq<char> = Seq::empty();
    proof {
        assert(seen + it.remaining() =~= raw@);
    }
    loop
        invariant
            seen + it.remaining() == raw@,
            pieces(seen).len() == lines@.len() + 1,
            forall|i: int| 0 <= i < lines@.len() ==> (#[trigger] lines@[i])@ == pieces(seen)[i],
            cur@ == pieces(seen).last(),
            it.decrease() is Some,
        decreases it.decrease()->0,
    {
        match it.next() {
            Some(c) => {
                proof {
                    assert(seen.push(c).drop_last() =~= seen);
                    assert(seen.push(c) + it.remaining() =~= raw@);
                }
                if c == '\n' {
                    lines.push(cur);
                    cur = Vec::new();
                } else {
                    cur.push(c);
                }
                proof {
                    seen = seen.push(c);
                }
            },
            None => {
                proof {
                    assert(seen =~= raw@);
                }
                lines.push(cur);
                return lines;
            },
        }
    }
}

/// Four groups of one to three digits joined by dots.
pub const IP_PATTERN: &'static str = "\\b\\d{1,3}\\.\\d{1,3}\\.\\d{1,3}\\.\\d{1,3}\\b";

/// Six groups of one to three word characters joined by colons.
pub const MAC_PATTERN: &'static str = "\\b\\w{1,3}:\\w{1,3}:\\w{1,3}:\\w{1,3}:\\w{1,3}:\\w{1,3}\\b";

/// A line with nothing but blanks in it; such lines are passed over.
pub open spec fn is_blank(line: Seq<char>) -> bool {
    forall|i: int| 0 <= i < line.len() ==> #[trigger] line[i] == ' ' || line[i] == '\t' || line[i] == '\r'
}

/// The devices that the lines give, one for each line that is not blank,
/// in order: the first address-shaped text of the line and the first
/// hardware-address-shaped text. The first line that lacks either one
/// decides the error, the address being looked for first.
pub open spec fn parse_lines(ip: Seq<char>, mac: Seq<char>, lines: Seq<Seq<char>>) -> Result<Seq<DeviceView>, Error>
    decreases lines.len(),
{
    if lines.len() == 0 {
        Ok(Seq::empty())
    } else {
        match parse_lines(ip, mac, lines.drop_last()) {
            Err(e) => Err(e),
            Ok(ds) => {
                let line = lines.last();
                if is_blank(line) {
                    Ok(ds)
                } else {
                    match regex_first_match(ip, line) {
                        None => Err(Error::NotFoundIPAddress),
                        Some(a) => match regex_first_match(mac, line) {
                            None => Err(Error::NotFoundMACAddress),
                            Some(m) => Ok(ds.push(DeviceView { ip: a, mac_address: m })),
                        },
                    }
                }
            },
        }
    }
}

/// Once a prefix of the lines fails, the whole fails with the same error.
proof fn lemma_error_persists(ip: Seq<char>, mac: Seq<char>, lines: Seq<Seq<char>>, k: int)
    requires
        0 <= k <= lines.len(),
        parse_lines(ip, mac, lines.take(k)) is Err,
    ensures
        parse_lines(ip, mac, lines) == parse_lines(ip, mac, lines.take(k)),
    decreases lines.len(),
{
    if lines.len() == k {
        assert(lines.take(k) =~= lines);
    } else {
        assert(lines.drop_last().take(k) =~= lines.take(k));
        lemma_error_persists(ip, mac, lines.drop_last(), k);
    }
}

/// What discovery makes of the raw text of the neighbour table.
pub open spec fn parse_snapshot(raw: Seq<char>) -> Result<Seq<DeviceView>, Error> {
    if !regex_compiles(IP_PATTERN@) {
        Err(Error::ExpressionRegularToIPIncorrect)
    } else if !regex_compiles(MAC_PATTERN@) {
        Err(Error::ExpressionRegularToMACIncorrect)
    } else {
        parse_lines(IP_PATTERN@, MAC_PATTERN@, pieces(raw))
    }
}

/// The views of a sequence of devices.
pub open spec fn views(ds: Seq<Device>) -> Seq<DeviceView> {
    ds.map_values(|d: Device| d@)
}

fn is_blank_line(line: &Vec<char>) -> (r: bool)
    ensures
        r == is_blank(line@),
{
    let mut i: usize = 0;
    while i < line.len()
        invariant
            i <= line@.len(),
            forall|j: int| 0 <= j < i ==> #[trigger] line@[j] == ' ' || line@[j] == '\t' || line@[j] == '\r',
        decreases line@.len() - i,
    {
        let c = line[i];
        if c != ' ' && c != '\t' && c != '\r' {
            return false;
        }
        i = i + 1;
    }
    true
}

/// Parses the raw text of the neighbour table into devices, all or nothing.
pub fn parse_devices(raw: &str) -> (r: Result<Vec<Device>, Error>)
    ensures
        match parse_snapshot(raw@) {
            Ok(ds) => r is Ok && views(r->Ok_0@) == ds,
            Err(e) => r == Err::<Vec<Device>, Error>(e),
        },
{
    let ip_re = match Pattern::compile(IP_PATTERN) {
        Some(p) => p,
        None => return Err(Error::ExpressionRegularToIPIncorrect),
    };
    let mac_re = match Pattern::compile(MAC_PATTERN) {
        Some(p) => p,
        None => return Err(Error::ExpressionRegularToMACIncorrect),
    };
    let lines = split_lines(raw);
    let ghost all = pieces(raw@);
    let mut devices: Vec<Device> = Vec::new();
    let mut i: usize = 0;
    proof {
        assert(all.take(0) =~= Seq::<Seq<char>>::empty());
        assert(views(devices@) =~= Seq::<DeviceView>::empty());
    }
    while i < lines.len()
        invariant
            i <= lines@.len(),
            all == pieces(raw@),
            lines@.len() == all.len(),
            forall|k: int| 0 <= k < lines@.len() ==> (#[trigger] lines@[k])@ == all[k],
            ip_re.source() == IP_PATTERN@,
            mac_re.source() == MAC_PATTERN@,
            regex_compiles(IP_PATTERN@),
            regex_compiles(MAC_PATTERN@),
            parse_lines(IP_PATTERN@, MAC_PATTERN@, all.take(i as int)) == Ok::<Seq<DeviceView>, Error>(views(devices@)),
        decreases lines@.len() - i,
    {
        let line = &lines[i];
        proof {
            assert(all.take(i as int + 1).drop_last() =~= all.take(i as int));
            assert(all.take(i as int + 1).last() == line@);
        }
        if !is_blank_line(line) {
            let ip = match ip_re.find(line) {
                Some(a) => a,
                None => {
                    proof {
                        assert(parse_lines(IP_PATTERN@, MAC_PATTERN@, all.take(i as int + 1)) is Err);
                        lemma_error_persists(IP_PATTERN@, MAC_PATTERN@, all, i as int + 1);
                    }
                    return Err(Error::NotFoundIPAddress);
                },
            };
            let mac = match mac_re.find(line) {
                Some(m) => m,
                None => {
                    proof {
                        assert(parse_lines(IP_PATTERN@, MAC_PATTERN@, all.take(i as int + 1)) is Err);
                        lemma_error_persists(IP_PATTERN@, MAC_PATTERN@, all, i as int + 1);
                    }
                    return Err(Error::NotFoundMACAddress);
                },
            };
            let device = Device::new(ip, mac);
            let ghost old_devices = devices@;
            devices.push(device);
            proof {
                assert(views(devices@) =~= views(old_devices).push(device@));
            }
        }
        i = i + 1;
    }
    proof {
        assert(all.take(lines@.len() as int) =~= all);
    }
    Ok(devices)
}

/// A line holds what discovery needs: it is blank, or it has both an
/// address-shaped and a hardware-address-shaped text.
pub open spec fn well_formed_line(ip: Seq<char>, mac: Seq<char>, line: Seq<char>) -> bool {
    is_blank(line) || (regex_first_match(ip, line) is Some && regex_first_match(mac, line) is Some)
}

/// The device that a well-formed line gives; none for a blank line.
pub open spec fn line_device(ip: Seq<char>, mac: Seq<char>, line: Seq<char>) -> Option<DeviceView> {
    if is_blank(line) {
        None
    } else {
        Some(DeviceView { ip: regex_first_match(ip, line)->Some_0, mac_address: regex_first_match(mac, line)->Some_0 })
    }
}

/// `line_device` as a function of the line alone.
pub open spec fn line_devices(ip: Seq<char>, mac: Seq<char>) -> spec_fn(Seq<char>) -> Option<DeviceView> {
    |line: Seq<char>| line_device(ip, mac, line)
}

proof fn lemma_parse_well_formed_lines(ip: Seq<char>, mac: Seq<char>, lines: Seq<Seq<char>>)
    requires
        forall|i: int| 0 <= i < lines.len() ==> well_formed_line(ip, mac, #[trigger] lines[i]),
    ensures
        parse_lines(ip, mac, lines) == Ok::<Seq<DeviceView>, Error>(
            lines.filter_map(line_devices(ip, mac)),
        ),
    decreases lines.len(),
{
    if lines.len() > 0 {
        let rest = lines.drop_last();
        assert forall|i: int| 0 <= i < rest.len() implies well_formed_line(ip, mac, #[trigger] rest[i]) by {
            assert(rest[i] == lines[i]);
        }
        lemma_parse_well_formed_lines(ip, mac, rest);
        assert(well_formed_line(ip, mac, lines[lines.len() - 1]));
        let done = rest.filter_map(line_devices(ip, mac));
        match line_device(ip, mac, lines.last()) {
            Some(d) => assert(done + seq![d] =~= done.push(d)),
            None => {},
        }
    }
}

/// On a text whose every line is blank or holds both an address-shaped and a
/// hardware-address-shaped text, discovery succeeds with one device for each
/// line that is not blank, in the order of the lines, whose fields are
/// exactly the two matched texts.
pub proof fn lemma_well_formed_snapshot(raw: Seq<char>)
    requires
        regex_compiles(IP_PATTERN@),
        regex_compiles(MAC_PATTERN@),
        forall|i: int| 0 <= i < pieces(raw).len() ==> well_formed_line(IP_PATTERN@, MAC_PATTERN@, #[trigger] pieces(raw)[i]),
    ensures
        parse_snapshot(raw) == Ok::<Seq<DeviceView>, Error>(
            pieces(raw).filter_map(line_devices(IP_PATTERN@, MAC_PATTERN@)),
        ),
{
    lemma_parse_well_formed_lines(IP_PATTERN@, MAC_PATTERN@, pieces(raw));
}

/// When the first line that is not well formed has an address-shaped text
/// but no hardware-address-shaped one, discovery fails with
/// `NotFoundMACAddress`, whatever follows.
pub proof fn lemma_missing_mac_fails(raw: Seq<char>, k: int)
    requires
        regex_compiles(IP_PATTERN@),
        regex_compiles(MAC_PATTERN@),
        0 <= k < pieces(raw).len(),
        forall|i: int| 0 <= i < k ==> well_formed_line(IP_PATTERN@, MAC_PATTERN@, #[trigger] pieces(raw)[i]),
        !is_blank(pieces(raw)[k]),
        regex_first_match(IP_PATTERN@, pieces(raw)[k]) is Some,
        regex_first_match(MAC_PATTERN@, pieces(raw)[k]) is None,
    ensures
        parse_snapshot(raw) == Err::<Seq<DeviceView>, Error>(Error::NotFoundMACAddress),
{
    let lines = pieces(raw);
    let before = lines.take(k);
    assert forall|i: int| 0 <= i < before.len() implies well_formed_line(IP_PATTERN@, MAC_PATTERN@, #[trigger] before[i]) by {
        assert(before[i] == lines[i]);
    }
    lemma_parse_well_formed_lines(IP_PATTERN@, MAC_PATTERN@, before);
    assert(lines.take(k + 1).drop_last() =~= before);
    assert(lines.take(k + 1).last() == lines[k]);
    lemma_error_persists(IP_PATTERN@, MAC_PATTERN@, lines, k + 1);
}

} // verus!

//! Which connected HID interfaces are ZSA keyboards speaking Oryx, and which of them
//! a command addresses.
use vstd::prelude::*;
use vstd::string::*;
use crate::text::{
    is_whitespace, join, join_spec, lemma_split_pieces_lack_separator,
    lemma_trim_shape, split_on, split_trimmed, split_trimmed_spec, trim,
};

verus! {

/// USB vendor id of ZSA.
pub const VENDOR_ID: u16 = 0x3297;

/// USB product id of the Voyager.
pub const PRODUCT_ID: u16 = 0x1977;

/// HID usage page of the Oryx raw-HID interface.
pub const USAGE_PAGE: u16 = 0xFF60;

/// HID usage id of the Oryx raw-HID interface.
pub const USAGE_ID: u16 = 0x61;

/// What the enumeration of HID interfaces reports of one interface.
pub struct HidDeviceInfo {
    pub vendor_id: u16,
    pub product_id: u16,
    pub usage_page: u16,
    pub usage: u16,
    /// The serial number, where the interface reports one.
    pub serial_number: Option<String>,
    /// The product name, where the interface reports one.
    pub product_string: Option<String>,
    /// The platform path of the interface, where it is valid UTF-8.
    pub path: Option<String>,
}

/// Why no interface could be selected.
#[derive(Debug)]
pub enum SelectError {
    /// No Oryx raw-HID interface is connected.
    NoKeyboards,
    /// A requested serial number matches no connected keyboard; `available` holds the
    /// serial numbers of the connected keyboards, in enumeration order.
    SerialNotFound { serial: String, available: Vec<String> },
}

impl SelectError {
    /// The text of this error.
    pub open spec fn message_text(&self) -> Seq<char> {
        match self {
            SelectError::NoKeyboards => "No ZSA keyboards found. Is one connected? Is Keymapp disconnected?"@,
            SelectError::SerialNotFound { serial, available } => "Device with serial \""@ + serial@
                + "\" not found. Available: "@ + join_spec(available.deep_view(), ", "@),
        }
    }

    /// The text of this error; a missing serial number comes with the available ones,
    /// separated by `, `.
    pub fn message(&self) -> (r: String)
        ensures
            r@ == self.message_text(),
    {
        match self {
            SelectError::NoKeyboards => String::from_str(
                "No ZSA keyboards found. Is one connected? Is Keymapp disconnected?",
            ),
            SelectError::SerialNotFound { serial, available } => {
                let mut out = String::from_str("Device with serial \"");
                out.append(serial.as_str());
                out.append("\" not found. Available: ");
                let list = join(available, ", ");
                out.append(list.as_str());
                out
            },
        }
    }
}

// ---------------------------------------------------------------------------
// The device filter given on the command line
// ---------------------------------------------------------------------------

/// The non-empty elements of `ps`, in order.
pub open spec fn nonempty_only(ps: Seq<Seq<char>>) -> Seq<Seq<char>>
    decreases ps.len(),
{
    if ps.len() == 0 {
        ps
    } else if ps.last().len() > 0 {
        nonempty_only(ps.drop_last()).push(ps.last())
    } else {
        nonempty_only(ps.drop_last())
    }
}

/// The serial numbers named by a `--device` value: its comma-separated pieces,
/// trimmed of whitespace, empty ones dropped.
pub open spec fn device_filter_entries(flag: Seq<char>) -> Seq<Seq<char>> {
    nonempty_only(split_trimmed_spec(flag, ','))
}

proof fn lemma_nonempty_only_members(ps: Seq<Seq<char>>)
    ensures
        forall|k: int|
            0 <= k < nonempty_only(ps).len() ==> (#[trigger] nonempty_only(ps)[k]).len() > 0 && exists|j: int|
                0 <= j < ps.len() && ps[j] == nonempty_only(ps)[k],
    decreases ps.len(),
{
    if ps.len() > 0 {
        let front = ps.drop_last();
        lemma_nonempty_only_members(front);
        let out = nonempty_only(ps);
        assert forall|k: int| 0 <= k < out.len() implies (#[trigger] out[k]).len() > 0 && exists|j: int|
            0 <= j < ps.len() && ps[j] == out[k] by {
            if k < nonempty_only(front).len() {
                assert(out[k] == nonempty_only(front)[k]);
                let j = choose|j: int| 0 <= j < front.len() && front[j] == nonempty_only(front)[k];
                assert(ps[j] == front[j]);
            } else {
                assert(out[k] == ps.last());
                assert(ps[ps.len() - 1] == ps.last());
            }
        }
    }
}

/// Every serial number named by a `--device` value is non-empty, holds no comma, and
/// neither begins nor ends with whitespace.
pub proof fn lemma_filter_entries_are_clean(flag: Seq<char>)
    ensures
        forall|k: int|
            0 <= k < device_filter_entries(flag).len() ==> {
                let e = #[trigger] device_filter_entries(flag)[k];
                &&& e.len() > 0
                &&& !e.contains(',')
                &&& !is_whitespace(e[0])
                &&& !is_whitespace(e.last())
            },
{
    let pieces = split_on(flag, ',');
    let trimmed = split_trimmed_spec(flag, ',');
    lemma_split_pieces_lack_separator(flag, ',');
    lemma_nonempty_only_members(trimmed);
    assert forall|k: int| 0 <= k < device_filter_entries(flag).len() implies {
        let e = #[trigger] device_filter_entries(flag)[k];
        &&& e.len() > 0
        &&& !e.contains(',')
        &&& !is_whitespace(e[0])
        &&& !is_whitespace(e.last())
    } by {
        let e = device_filter_entries(flag)[k];
        let j = choose|j: int| 0 <= j < trimmed.len() && trimmed[j] == e;
        assert(trimmed[j] == trim(pieces[j]));
        lemma_trim_shape(pieces[j]);
        let (a, b) = choose|a: int, b: int| 0 <= a <= b <= pieces[j].len() && trim(pieces[j])
            == pieces[j].subrange(a, b);
        assert(!pieces[j].contains(','));
        if e.contains(',') {
            let t = choose|t: int| 0 <= t < e.len() && e[t] == ',';
            assert(pieces[j][a + t] == ',');
        }
    }
}

/// Turns the `--device` value into the list of serial numbers it names; no value means
/// no filter.
pub fn parse_device_filter(device: &Option<String>) -> (r: Option<Vec<String>>)
    ensures
        device is None ==> r is None,
        device matches Some(d) ==> (r matches Some(v) && v.deep_view() == device_filter_entries(
            d@,
        )),
{
    match device {
        None => None,
        Some(d) => {
            let pieces = split_trimmed(d.as_str(), ',');
            let mut kept: Vec<String> = Vec::new();
            let mut i: usize = 0;
            while i < pieces.len()
                invariant
                    0 <= i <= pieces.len(),
                    pieces.deep_view() == split_trimmed_spec(d@, ','),
                    kept.deep_view() == nonempty_only(pieces.deep_view().take(i as int)),
                decreases pieces.len() - i,
            {
                let ghost prefix = pieces.deep_view().take(i as int);
                assert(pieces.deep_view().take(i + 1).drop_last() =~= prefix);
                assert(pieces.deep_view().take(i + 1).last() == pieces[i as int]@);
                if !pieces[i].as_str().is_empty() {
                    let piece = pieces[i].clone();
                    kept.push(piece);
                    assert(kept.deep_view() =~= nonempty_only(prefix).push(pieces[i as int]@));
                }
                i = i + 1;
            }
            assert(pieces.deep_view().take(pieces.len() as int) =~= pieces.deep_view());
            Some(kept)
        },
    }
}

// ---------------------------------------------------------------------------
// Recognising and naming keyboards
// ---------------------------------------------------------------------------

/// Whether an interface is the Oryx raw-HID interface of a ZSA Voyager: ZSA's vendor id,
/// the Voyager's product id, and the Oryx usage page and usage.
pub open spec fn is_oryx_raw_hid_spec(d: HidDeviceInfo) -> bool {
    &&& d.vendor_id == VENDOR_ID
    &&& d.product_id == PRODUCT_ID
    &&& d.usage_page == USAGE_PAGE
    &&& d.usage == USAGE_ID
}

/// The serial number of an interface, `unknown` where it reports none.
pub open spec fn serial_of(d: HidDeviceInfo) -> Seq<char> {
    match d.serial_number {
        Some(s) => s@,
        None => "unknown"@,
    }
}

/// The product name of an interface, `ZSA Keyboard` where it reports none.
pub open spec fn product_of(d: HidDeviceInfo) -> Seq<char> {
    match d.product_string {
        Some(s) => s@,
        None => "ZSA Keyboard"@,
    }
}

/// How messages name a keyboard: `product [serial]`.
pub open spec fn label_of(d: HidDeviceInfo) -> Seq<char> {
    product_of(d) + " ["@ + serial_of(d) + "]"@
}

/// The line that lists an interface: serial, product and path, two spaces apart, with
/// `?` for a path that is not valid UTF-8.
pub open spec fn listing_line_of(d: HidDeviceInfo) -> Seq<char> {
    let path = match d.path {
        Some(p) => p@,
        None => "?"@,
    };
    serial_of(d) + "  "@ + product_of(d) + "  "@ + path
}

/// An interface is the Oryx one of a Voyager exactly when it reports vendor `0x3297`,
/// product `0x1977`, usage page `0xFF60` and usage `0x61`; a keyboard that reports no
/// serial number or product is named `unknown` and `ZSA Keyboard`.
pub proof fn lemma_identification(d: HidDeviceInfo)
    ensures
        is_oryx_raw_hid_spec(d) <==> (d.vendor_id == 0x3297u16 && d.product_id == 0x1977u16
            && d.usage_page == 0xFF60u16 && d.usage == 0x61u16),
        d.serial_number is None ==> serial_of(d) == seq!['u', 'n', 'k', 'n', 'o', 'w', 'n'],
        d.serial_number matches Some(s) ==> serial_of(d) == s@,
        d.product_string is None ==> product_of(d) == seq![
            'Z', 'S', 'A', ' ', 'K', 'e', 'y', 'b', 'o', 'a', 'r', 'd',
        ],
        d.product_string matches Some(s) ==> product_of(d) == s@,
{
    reveal_strlit("unknown");
    reveal_strlit("ZSA Keyboard");
    assert("unknown"@ =~= seq!['u', 'n', 'k', 'n', 'o', 'w', 'n']);
    assert("ZSA Keyboard"@ =~= seq!['Z', 'S', 'A', ' ', 'K', 'e', 'y', 'b', 'o', 'a', 'r', 'd']);
}

/// Whether an interface is the Oryx raw-HID interface of a ZSA Voyager.
pub fn is_oryx_raw_hid(d: &HidDeviceInfo) -> (r: bool)
    ensures
        r == is_oryx_raw_hid_spec(*d),
{
    d.vendor_id == VENDOR_ID && d.product_id == PRODUCT_ID && d.usage_page == USAGE_PAGE && d.usage
        == USAGE_ID
}

/// The serial number of an interface, `unknown` where it reports none.
pub fn device_serial(d: &HidDeviceInfo) -> (r: String)
    ensures
        r@ == serial_of(*d),
{
    match &d.serial_number {
        Some(s) => s.clone(),
        None => String::from_str("unknown"),
    }
}

/// The product name of an interface, `ZSA Keyboard` where it reports none.
pub fn device_product(d: &HidDeviceInfo) -> (r: String)
    ensures
        r@ == product_of(*d),
{
    match &d.product_string {
        Some(s) => s.clone(),
        None => String::from_str("ZSA Keyboard"),
    }
}

/// How messages name a keyboard: `product [serial]`.
pub fn device_label(d: &HidDeviceInfo) -> (r: String)
    ensures
        r@ == label_of(*d),
{
    let mut out = device_product(d);
    out.append(" [");
    let serial = device_serial(d);
    out.append(serial.as_str());
    out.append("]");
    out
}

/// The line that lists an interface: serial, product and path, two spaces apart.
pub fn listing_line(d: &HidDeviceInfo) -> (r: String)
    ensures
        r@ == listing_line_of(*d),
{
    let mut out = device_serial(d);
    out.append("  ");
    let product = device_product(d);
    out.append(product.as_str());
    out.append("  ");
    match &d.path {
        Some(p) => out.append(p.as_str()),
        None => out.append("?"),
    }
    out
}

// ---------------------------------------------------------------------------
// Selecting keyboards
// ---------------------------------------------------------------------------

/// The positions in `all` of the Oryx raw-HID interfaces, in order.
pub open spec fn oryx_indices(all: Seq<HidDeviceInfo>) -> Seq<usize>
    decreases all.len(),
{
    if all.len() == 0 {
        Seq::empty()
    } else if is_oryx_raw_hid_spec(all.last()) {
        oryx_indices(all.drop_last()).push((all.len() - 1) as usize)
    } else {
        oryx_indices(all.drop_last())
    }
}

/// The first of the positions `candidates` whose interface has serial number `serial`.
pub open spec fn first_with_serial(
    all: Seq<HidDeviceInfo>,
    candidates: Seq<usize>,
    serial: Seq<char>,
) -> Option<usize>
    decreases candidates.len(),
{
    if candidates.len() == 0 {
        None
    } else {
        match first_with_serial(all, candidates.drop_last(), serial) {
            Some(k) => Some(k),
            None => if serial_of(all[candidates.last() as int]) == serial {
                Some(candidates.last())
            } else {
                None
            },
        }
    }
}

/// For each requested serial number in order, the first candidate that carries it; or
/// the first requested serial number that no candidate carries.
pub open spec fn select_serials(
    all: Seq<HidDeviceInfo>,
    candidates: Seq<usize>,
    serials: Seq<Seq<char>>,
) -> Result<Seq<usize>, Seq<char>>
    decreases serials.len(),
{
    if serials.len() == 0 {
        Ok(Seq::empty())
    } else {
        match select_serials(all, candidates, serials.drop_last()) {
            Err(missing) => Err(missing),
            Ok(chosen) => match first_with_serial(all, candidates, serials.last()) {
                Some(k) => Ok(chosen.push(k)),
                None => Err(serials.last()),
            },
        }
    }
}

/// The serial numbers of the interfaces at `positions`, in order.
pub open spec fn serials_at(all: Seq<HidDeviceInfo>, positions: Seq<usize>) -> Seq<Seq<char>> {
    positions.map_values(|k: usize| serial_of(all[k as int]))
}

proof fn lemma_oryx_indices_bounded(all: Seq<HidDeviceInfo>)
    requires
        all.len() <= usize::MAX,
    ensures
        forall|j: int|
            0 <= j < oryx_indices(all).len() ==> (#[trigger] oryx_indices(all)[j] as int) < all.len()
                && is_oryx_raw_hid_spec(all[oryx_indices(all)[j] as int]),
    decreases all.len(),
{
    if all.len() > 0 {
        let front = all.drop_last();
        lemma_oryx_indices_bounded(front);
        let idx = oryx_indices(all);
        assert forall|j: int| 0 <= j < idx.len() implies (#[trigger] idx[j] as int) < all.len()
            && is_oryx_raw_hid_spec(all[idx[j] as int]) by {
            let fi = oryx_indices(front);
            if is_oryx_raw_hid_spec(all.last()) {
                assert(idx == fi.push((all.len() - 1) as usize));
            } else {
                assert(idx == fi);
            }
            if j < fi.len() {
                assert(idx[j] == fi[j]);
                assert((fi[j] as int) < front.len());
                assert(all[idx[j] as int] == front[idx[j] as int]);
            }
        }
    }
}

fn oryx_positions(all: &Vec<HidDeviceInfo>) -> (r: Vec<usize>)
    ensures
        r@ == oryx_indices(all@),
{
    let mut out: Vec<usize> = Vec::new();
    let mut i: usize = 0;
    while i < all.len()
        invariant
            0 <= i <= all.len(),
            out@ == oryx_indices(all@.take(i as int)),
        decreases all.len() - i,
    {
        assert(all@.take(i + 1).drop_last() =~= all@.take(i as int));
        assert(all@.take(i + 1).last() == all@[i as int]);
        if is_oryx_raw_hid(&all[i]) {
            out.push(i);
        }
        i = i + 1;
    }
    assert(all@.take(all.len() as int) =~= all@);
    out
}

/// Whether any Oryx raw-HID interface is connected.
pub fn has_devices(all: &Vec<HidDeviceInfo>) -> (r: bool)
    ensures
        r == (oryx_indices(all@).len() > 0),
{
    let positions = oryx_positions(all);
    positions.len() > 0
}

/// The listing lines of the Oryx raw-HID interfaces, in enumeration order.
pub fn device_listing(all: &Vec<HidDeviceInfo>) -> (r: Vec<String>)
    ensures
        r.deep_view() == oryx_indices(all@).map_values(|k: usize| listing_line_of(all@[k as int])),
{
    let positions = oryx_positions(all);
    let count = all.len();
    proof {
        assert(count as int == all@.len());
        lemma_oryx_indices_bounded(all@);
    }
    let mut out: Vec<String> = Vec::new();
    let mut j: usize = 0;
    while j < positions.len()
        invariant
            0 <= j <= positions.len(),
            positions@ == oryx_indices(all@),
            forall|t: int| 0 <= t < positions@.len() ==> (#[trigger] positions@[t] as int) < all@.len(),
            out.deep_view() == positions@.take(j as int).map_values(
                |k: usize| listing_line_of(all@[k as int]),
            ),
        decreases positions.len() - j,
    {
        let line = listing_line(&all[positions[j]]);
        let ghost before = out.deep_view();
        out.push(line);
        assert(out.deep_view() =~= before.push(line@));
        assert(positions@.take(j + 1).map_values(|k: usize| listing_line_of(all@[k as int]))
            =~= positions@.take(j as int).map_values(|k: usize| listing_line_of(all@[k as int])).push(
            listing_line_of(all@[positions@[j as int] as int]),
        ));
        j = j + 1;
    }
    assert(positions@.take(positions.len() as int) =~= positions@);
    out
}

fn find_serial(all: &Vec<HidDeviceInfo>, candidates: &Vec<usize>, serial: &String) -> (r: Option<
    usize,
>)
    requires
        forall|t: int| 0 <= t < candidates@.len() ==> (#[trigger] candidates@[t] as int) < all@.len(),
    ensures
        r == first_with_serial(all@, candidates@, serial@),
{
    let mut j: usize = 0;
    while j < candidates.len()
        invariant
            0 <= j <= candidates.len(),
            forall|t: int| 0 <= t < candidates@.len() ==> (#[trigger] candidates@[t] as int) < all@.len(),
            first_with_serial(all@, candidates@.take(j as int), serial@) is None,
        decreases candidates.len() - j,
    {
        assert(candidates@.take(j + 1).drop_last() =~= candidates@.take(j as int));
        assert(candidates@.take(j + 1).last() == candidates@[j as int]);
        let k = candidates[j];
        let s = device_serial(&all[k]);
        if s == *serial {
            proof {
                lemma_first_with_serial_prefix(all@, candidates@, serial@, j + 1);
            }
            return Some(k);
        }
        j = j + 1;
    }
    assert(candidates@.take(candidates.len() as int) =~= candidates@);
    None
}

proof fn lemma_first_with_serial_prefix(
    all: Seq<HidDeviceInfo>,
    candidates: Seq<usize>,
    serial: Seq<char>,
    n: int,
)
    requires
        0 <= n <= candidates.len(),
        first_with_serial(all, candidates.take(n), serial) is Some,
    ensures
        first_with_serial(all, candidates, serial) == first_with_serial(all, candidates.take(n), serial),
    decreases candidates.len() - n,
{
    if n < candidates.len() {
        assert(candidates.take(n + 1).drop_last() =~= candidates.take(n));
        lemma_first_with_serial_prefix(all, candidates, serial, n + 1);
    } else {
        assert(candidates.take(n) =~= candidates);
    }
}

/// Chooses the keyboards that a command addresses, as positions in `all`.
///
/// Without a filter every Oryx raw-HID interface is chosen, in enumeration order. With
/// one, each requested serial number in turn picks the first such interface that
/// carries it, and the first serial number that none carries is refused. When no such
/// interface is connected at all, that is the error.
pub fn filtered_device_paths(all: &Vec<HidDeviceInfo>, filter: &Option<Vec<String>>) -> (r: Result<
    Vec<usize>,
    SelectError,
>)
    ensures
        oryx_indices(all@).len() == 0 ==> r matches Err(SelectError::NoKeyboards),
        oryx_indices(all@).len() > 0 && filter is None ==> (r matches Ok(v) && v@ == oryx_indices(
            all@,
        )),
        oryx_indices(all@).len() > 0 && filter is Some ==> match select_serials(
            all@,
            oryx_indices(all@),
            filter->0.deep_view(),
        ) {
            Ok(chosen) => r matches Ok(v) && v@ == chosen,
            Err(missing) => r matches Err(SelectError::SerialNotFound { serial, available }) && serial@
                == missing && available.deep_view() == serials_at(all@, oryx_indices(all@)),
        },
{
    let candidates = oryx_positions(all);
    let count = all.len();
    proof {
        assert(count as int == all@.len());
        lemma_oryx_indices_bounded(all@);
    }
    if candidates.len() == 0 {
        return Err(SelectError::NoKeyboards);
    }
    let serials = match filter {
        None => {
            return Ok(candidates);
        },
        Some(f) => f,
    };
    let mut chosen: Vec<usize> = Vec::new();
    let mut i: usize = 0;
    while i < serials.len()
        invariant
            0 <= i <= serials.len(),
            candidates@ == oryx_indices(all@),
            candidates@.len() > 0,
            filter is Some && filter->0 == *serials,
            forall|t: int| 0 <= t < candidates@.len() ==> (#[trigger] candidates@[t] as int) < all@.len(),
            select_serials(all@, candidates@, serials.deep_view().take(i as int)) == Ok::<
                Seq<usize>,
                Seq<char>,
            >(chosen@),
        decreases serials.len() - i,
    {
        assert(serials.deep_view().take(i + 1).drop_last() =~= serials.deep_view().take(i as int));
        assert(serials.deep_view().take(i + 1).last() == serials[i as int]@);
        match find_serial(all, &candidates, &serials[i]) {
            Some(k) => {
                chosen.push(k);
            },
            None => {
                proof {
                    lemma_select_serials_prefix_err(
                        all@,
                        candidates@,
                        serials.deep_view(),
                        i + 1,
                    );
                }
                let available = serials_of(all, &candidates);
                return Err(
                    SelectError::SerialNotFound { serial: serials[i].clone(), available: available },
                );
            },
        }
        i = i + 1;
    }
    assert(serials.deep_view().take(serials.len() as int) =~= serials.deep_view());
    Ok(chosen)
}

proof fn lemma_select_serials_prefix_err(
    all: Seq<HidDeviceInfo>,
    candidates: Seq<usize>,
    serials: Seq<Seq<char>>,
    n: int,
)
    requires
        0 <= n <= serials.len(),
        select_serials(all, candidates, serials.take(n)) is Err,
    ensures
        select_serials(all, candidates, serials) == select_serials(all, candidates, serials.take(n)),
    decreases serials.len() - n,
{
    if n < serials.len() {
        assert(serials.take(n + 1).drop_last() =~= serials.take(n));
        lemma_select_serials_prefix_err(all, candidates, serials, n + 1);
    } else {
        assert(serials.take(n) =~= serials);
    }
}

fn serials_of(all: &Vec<HidDeviceInfo>, positions: &Vec<usize>) -> (r: Vec<String>)
    requires
        forall|t: int| 0 <= t < positions@.len() ==> (#[trigger] positions@[t] as int) < all@.len(),
    ensures
        r.deep_view() == serials_at(all@, positions@),
{
    let mut out: Vec<String> = Vec::new();
    let mut j: usize = 0;
    while j < positions.len()
        invariant
            0 <= j <= positions.len(),
            forall|t: int| 0 <= t < positions@.len() ==> (#[trigger] positions@[t] as int) < all@.len(),
            out.deep_view() == serials_at(all@, positions@.take(j as int)),
        decreases positions.len() - j,
    {
        let s = device_serial(&all[positions[j]]);
        let ghost before = out.deep_view();
        out.push(s);
        assert(out.deep_view() =~= before.push(s@));
        assert(serials_at(all@, positions@.take(j + 1)) =~= serials_at(all@, positions@.take(j as int)).push(
            serial_of(all@[positions@[j as int] as int]),
        ));
        j = j + 1;
    }
    assert(positions@.take(positions.len() as int) =~= positions@);
    out
}

// ---------------------------------------------------------------------------
// Laws of selection
// ---------------------------------------------------------------------------

proof fn lemma_first_with_serial_sound(
    all: Seq<HidDeviceInfo>,
    candidates: Seq<usize>,
    serial: Seq<char>,
)
    ensures
        first_with_serial(all, candidates, serial) matches Some(k) ==> candidates.contains(k)
            && serial_of(all[k as int]) == serial,
        first_with_serial(all, candidates, serial) is None ==> forall|j: int|
            0 <= j < candidates.len() ==> serial_of(all[#[trigger] candidates[j] as int]) != serial,
    decreases candidates.len(),
{
    if candidates.len() > 0 {
        let front = candidates.drop_last();
        lemma_first_with_serial_sound(all, front, serial);
        if let Some(k) = first_with_serial(all, front, serial) {
            let j = choose|j: int| 0 <= j < front.len() && front[j] == k;
            assert(candidates[j] == k);
        } else if first_with_serial(all, candidates, serial) is Some {
            assert(candidates[candidates.len() - 1] == candidates.last());
        } else {
            assert forall|j: int| 0 <= j < candidates.len() implies serial_of(
                all[#[trigger] candidates[j] as int],
            ) != serial by {
                if j < front.len() {
                    assert(candidates[j] == front[j]);
                }
            }
        }
    }
}

proof fn lemma_select_serials_sound(
    all: Seq<HidDeviceInfo>,
    candidates: Seq<usize>,
    serials: Seq<Seq<char>>,
)
    ensures
        select_serials(all, candidates, serials) matches Ok(chosen) ==> chosen.len() == serials.len()
            && forall|i: int|
            0 <= i < chosen.len() ==> candidates.contains(#[trigger] chosen[i]) && serial_of(
                all[chosen[i] as int],
            ) == serials[i],
        select_serials(all, candidates, serials) matches Err(missing) ==> serials.contains(missing)
            && forall|j: int|
            0 <= j < candidates.len() ==> serial_of(all[#[trigger] candidates[j] as int]) != missing,
    decreases serials.len(),
{
    if serials.len() > 0 {
        let front = serials.drop_last();
        lemma_select_serials_sound(all, candidates, front);
        lemma_first_with_serial_sound(all, candidates, serials.last());
        match select_serials(all, candidates, front) {
            Err(missing) => {
                let j = choose|j: int| 0 <= j < front.len() && front[j] == missing;
                assert(serials[j] == missing);
            },
            Ok(chosen) => {
                match first_with_serial(all, candidates, serials.last()) {
                    Some(k) => {
                        let all_chosen = chosen.push(k);
                        assert forall|i: int| 0 <= i < all_chosen.len() implies candidates.contains(
                            #[trigger] all_chosen[i],
                        ) && serial_of(all[all_chosen[i] as int]) == serials[i] by {
                            if i < chosen.len() {
                                assert(all_chosen[i] == chosen[i]);
                                assert(serials[i] == front[i]);
                            }
                        }
                    },
                    None => {
                        assert(serials[serials.len() - 1] == serials.last());
                    },
                }
            },
        }
    }
}

/// Every keyboard that a filter selects is a connected Oryx interface carrying the
/// serial number requested in the same position; and a serial number is refused only
/// when it was requested and no connected Oryx interface carries it.
pub proof fn lemma_selection_matches_request(all: Seq<HidDeviceInfo>, serials: Seq<Seq<char>>)
    requires
        all.len() <= usize::MAX,
    ensures
        select_serials(all, oryx_indices(all), serials) matches Ok(chosen) ==> chosen.len()
            == serials.len() && forall|i: int|
            0 <= i < chosen.len() ==> (#[trigger] chosen[i] as int) < all.len() && is_oryx_raw_hid_spec(
                all[chosen[i] as int],
            ) && serial_of(all[chosen[i] as int]) == serials[i],
        select_serials(all, oryx_indices(all), serials) matches Err(missing) ==> serials.contains(
            missing,
        ) && forall|k: int|
            0 <= k < all.len() && is_oryx_raw_hid_spec(#[trigger] all[k]) ==> serial_of(all[k])
                != missing,
{
    let idx = oryx_indices(all);
    lemma_oryx_indices_bounded(all);
    lemma_oryx_indices_complete(all);
    lemma_select_serials_sound(all, idx, serials);
    if let Ok(chosen) = select_serials(all, idx, serials) {
        assert forall|i: int| 0 <= i < chosen.len() implies (#[trigger] chosen[i] as int) < all.len()
            && is_oryx_raw_hid_spec(all[chosen[i] as int]) && serial_of(all[chosen[i] as int])
            == serials[i] by {
            assert(idx.contains(chosen[i]));
            let j = choose|j: int| 0 <= j < idx.len() && idx[j] == chosen[i];
            assert(idx[j] == chosen[i]);
        }
    }
    if let Err(missing) = select_serials(all, idx, serials) {
        assert forall|k: int| 0 <= k < all.len() && is_oryx_raw_hid_spec(#[trigger] all[k]) implies serial_of(
            all[k],
        ) != missing by {
            let j = choose|j: int| 0 <= j < idx.len() && idx[j] as int == k;
            assert(serial_of(all[idx[j] as int]) != missing);
        }
    }
}

proof fn lemma_oryx_indices_complete(all: Seq<HidDeviceInfo>)
    requires
        all.len() <= usize::MAX,
    ensures
        forall|k: int|
            0 <= k < all.len() && is_oryx_raw_hid_spec(#[trigger] all[k]) ==> exists|j: int|
                0 <= j < oryx_indices(all).len() && oryx_indices(all)[j] as int == k,
    decreases all.len(),
{
    if all.len() > 0 {
        let front = all.drop_last();
        lemma_oryx_indices_complete(front);
        let idx = oryx_indices(all);
        let fi = oryx_indices(front);
        assert forall|k: int| 0 <= k < all.len() && is_oryx_raw_hid_spec(#[trigger] all[k]) implies exists|j: int|
            0 <= j < idx.len() && idx[j] as int == k by {
            if k < front.len() {
                assert(front[k] == all[k]);
                let j = choose|j: int| 0 <= j < fi.len() && fi[j] as int == k;
                if is_oryx_raw_hid_spec(all.last()) {
                    assert(idx[j] == fi[j]);
                } else {
                    assert(idx == fi);
                }
            } else {
                assert(idx[idx.len() - 1] as int == k);
            }
        }
    }
}

} // verus!

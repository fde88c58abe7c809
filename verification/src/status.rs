//! Status shared with `muta status` over a unix socket.
//!
//! One line of tab-separated `key=value` pairs. Tabs rather than spaces
//! because values (the device name) contain spaces.

use vstd::prelude::*;
use vstd::string::*;

use crate::addr::Ipv4Addr;
use crate::text::{
    breaks, decimal, first_at, flat, joined, leading, lemma_decimal_digits, lemma_joined_without,
    position, push_decimal, push_flat, split, split_on, split_undoes_joining, text_of, texts,
    the_first_place_is_first, trim, trimmed, trimmed_end,
};

verus! {

pub const SOCKET_PATH: &'static str = "/var/run/rndis-tether.sock";

#[derive(Clone, Debug)]
pub struct Status {
    pub device: Option<String>,
    pub link_up: bool,
    pub interface: Option<String>,
    pub address: Option<Ipv4Addr>,
    pub gateway: Option<Ipv4Addr>,
    pub dns: Vec<Ipv4Addr>,
    pub packets_in: u64,
    pub packets_out: u64,
}

/// A status as plain values.
#[verifier::ext_equal]
pub struct StatusView {
    pub device: Option<Seq<char>>,
    pub link_up: bool,
    pub interface: Option<Seq<char>>,
    pub address: Option<Ipv4Addr>,
    pub gateway: Option<Ipv4Addr>,
    pub dns: Seq<Ipv4Addr>,
    pub packets_in: u64,
    pub packets_out: u64,
}

impl View for Status {
    type V = StatusView;

    open spec fn view(&self) -> StatusView {
        StatusView {
            device: text_of(self.device),
            link_up: self.link_up,
            interface: text_of(self.interface),
            address: self.address,
            gateway: self.gateway,
            dns: self.dns@,
            packets_in: self.packets_in,
            packets_out: self.packets_out,
        }
    }
}

impl Default for Status {
    fn default() -> (r: Self)
        ensures
            r@ == (StatusView {
                device: None,
                link_up: false,
                interface: None,
                address: None,
                gateway: None,
                dns: Seq::empty(),
                packets_in: 0,
                packets_out: 0,
            }),
    {
        Status {
            device: None,
            link_up: false,
            interface: None,
            address: None,
            gateway: None,
            dns: Vec::new(),
            packets_in: 0,
            packets_out: 0,
        }
    }
}

/// The text, or a dash.
pub open spec fn or_dash(s: Option<Seq<char>>) -> Seq<char> {
    match s {
        Some(s) => s,
        None => "-"@,
    }
}

/// The address, or a dash.
pub open spec fn address_text(a: Option<Ipv4Addr>) -> Seq<char> {
    match a {
        Some(a) => a.text(),
        None => "-"@,
    }
}

/// Addresses between commas.
pub open spec fn address_list(v: Seq<Ipv4Addr>) -> Seq<char>
    decreases v.len(),
{
    if v.len() == 0 {
        Seq::empty()
    } else if v.len() == 1 {
        v[0].text()
    } else {
        address_list(v.drop_last()) + ","@ + v.last().text()
    }
}

/// Addresses between commas, or a dash.
pub open spec fn dns_text(v: Seq<Ipv4Addr>) -> Seq<char> {
    if v.len() == 0 {
        "-"@
    } else {
        address_list(v)
    }
}

impl StatusView {
    pub open spec fn state_text(self) -> Seq<char> {
        if self.link_up {
            "connected"@
        } else {
            "waiting"@
        }
    }

    /// A tab or a newline in the descriptor string would break the framing.
    pub open spec fn device_text(self) -> Seq<char> {
        flat(or_dash(self.device))
    }

    /// The same goes for the interface.
    pub open spec fn interface_text(self) -> Seq<char> {
        flat(or_dash(self.interface))
    }

    /// The status as one line.
    pub open spec fn line(self) -> Seq<char> {
        "state="@ + self.state_text() + "\tdevice="@ + self.device_text() + "\tinterface="@
            + self.interface_text() + "\taddress="@ + address_text(self.address) + "\tgateway="@
            + address_text(self.gateway) + "\tdns="@ + dns_text(self.dns) + "\tin="@ + decimal(
            self.packets_in as nat,
        ) + "\tout="@ + decimal(self.packets_out as nat) + "\n"@
    }
}

fn push_address(out: &mut String, a: Option<Ipv4Addr>)
    ensures
        final(out)@ == old(out)@ + address_text(a),
{
    match a {
        Some(a) => out.append(a.to_text().as_str()),
        None => out.append("-"),
    }
}

fn push_dns(out: &mut String, v: &Vec<Ipv4Addr>)
    ensures
        final(out)@ == old(out)@ + dns_text(v@),
{
    if v.len() == 0 {
        out.append("-");
        return ;
    }
    let ghost start = out@;
    out.append(v[0].to_text().as_str());
    assert(v@.take(1)[0] == v@[0]);
    for i in 1..v.len()
        invariant
            v@.len() > 0,
            1 <= i,
            out@ == start + address_list(v@.take(i as int)),
    {
        let ghost upto = v@.take(i + 1);
        assert(upto.drop_last() =~= v@.take(i as int));
        out.append(",");
        out.append(v[i].to_text().as_str());
        assert(out@ =~= start + address_list(upto));
    }
    assert(v@.take(v@.len() as int) =~= v@);
}

impl Status {
    pub fn encode(&self) -> (s: String)
        ensures
            s@ == self@.line(),
            s@.len() > 0,
            s@.last() == '\n',
            !s@.drop_last().contains('\n'),
    {
        let mut s = "state=".to_owned();
        s.append(
            if self.link_up {
                "connected"
            } else {
                "waiting"
            },
        );
        s.append("\tdevice=");
        // A tab or a newline in the descriptor string would break the framing.
        match &self.device {
            Some(d) => push_flat(&mut s, d.as_str()),
            None => push_flat(&mut s, "-"),
        }
        s.append("\tinterface=");
        match &self.interface {
            Some(i) => push_flat(&mut s, i.as_str()),
            None => push_flat(&mut s, "-"),
        }
        s.append("\taddress=");
        push_address(&mut s, self.address);
        s.append("\tgateway=");
        push_address(&mut s, self.gateway);
        s.append("\tdns=");
        push_dns(&mut s, &self.dns);
        s.append("\tin=");
        push_decimal(&mut s, self.packets_in);
        s.append("\tout=");
        push_decimal(&mut s, self.packets_out);
        s.append("\n");
        proof {
            status_line_keeps_its_fields(self@);
        }
        s
    }
}

/// `n` blanks.
pub open spec fn blanks(n: nat) -> Seq<char> {
    Seq::new(n, |i: int| ' ')
}

/// One field as it is shown: the key in a column of ten, then the value; what is
/// no field is shown as it is.
pub open spec fn field_line(field: Seq<char>) -> Seq<char> {
    match first_at(field, '=', 0) {
        Some(i) => field.take(i) + blanks(
            if i < 10 {
                (10 - i) as nat
            } else {
                0
            },
        ) + " "@ + field.skip(i + 1) + "\n"@,
        None => field + "\n"@,
    }
}

/// The fields as they are shown, each on a line.
pub open spec fn field_lines(fields: Seq<Seq<char>>) -> Seq<char>
    decreases fields.len(),
{
    if fields.len() == 0 {
        Seq::empty()
    } else {
        field_lines(fields.drop_last()) + field_line(fields.last())
    }
}

fn push_field(out: &mut String, field: &str)
    ensures
        final(out)@ == old(out)@ + field_line(field@),
{
    let ghost start = out@;
    match position(field, '=') {
        Some(i) => {
            let len: usize = field.unicode_len();
            out.append(field.substring_char(0, i));
            let ghost key = out@;
            let pad: usize = if i < 10 {
                10 - i
            } else {
                0
            };
            assert(key + blanks(0) =~= key);
            for k in 0..pad
                invariant
                    out@ == key + blanks(k as nat),
            {
                out.push(' ');
                assert(out@ =~= key + blanks((k + 1) as nat));
            }
            out.append(" ");
            out.append(field.substring_char(i + 1, len));
            out.append("\n");
            assert(out@ =~= start + field_line(field@));
        },
        None => {
            out.append(field);
            out.append("\n");
            assert(out@ =~= start + field_line(field@));
        },
    }
}

/// Turn the daemon's line of `key=value` pairs into readable output.
pub fn render(reply: &str) -> (s: String)
    ensures
        s@ == field_lines(split(trimmed(reply@), '\t')),
{
    let line = trim(reply);
    let fields = split_on(line.as_str(), '\t');
    let ghost all = split(trimmed(reply@), '\t');
    let mut s = String::new();
    assert(all.take(0) =~= Seq::empty());
    assert(s@ =~= field_lines(all.take(0)));
    for i in 0..fields.len()
        invariant
            all == texts(fields@),
            s@ == field_lines(all.take(i as int)),
    {
        push_field(&mut s, fields[i].as_str());
        proof {
            let upto = all.take(i + 1);
            assert(upto.drop_last() =~= all.take(i as int));
            assert(upto.last() == fields@[i as int]@);
        }
    }
    assert(all.take(fields@.len() as int) =~= all);
    s
}

/// The fields of a status line.
pub open spec fn status_fields(st: StatusView) -> Seq<Seq<char>> {
    seq![
        "state="@ + st.state_text(),
        "device="@ + st.device_text(),
        "interface="@ + st.interface_text(),
        "address="@ + address_text(st.address),
        "gateway="@ + address_text(st.gateway),
        "dns="@ + dns_text(st.dns),
        "in="@ + decimal(st.packets_in as nat),
        "out="@ + decimal(st.packets_out as nat),
    ]
}

/// A status is one line, and that has exactly its eight fields between tabs, whatever
/// the device calls itself: a newline stands at its end and nowhere else.
pub proof fn status_line_keeps_its_fields(st: StatusView)
    ensures
        st.line().len() > 0,
        st.line().last() == '\n',
        !st.line().drop_last().contains('\n'),
        split(st.line().drop_last(), '\t') == status_fields(st),
{
    let f = status_fields(st);
    let t = '\t';
    lemma_tab_labels();
    lemma_values_without(st, '\t');
    lemma_values_without(st, '\n');
    let p0 = f[0];
    let p1 = p0 + "\tdevice="@ + st.device_text();
    let p2 = p1 + "\tinterface="@ + st.interface_text();
    let p3 = p2 + "\taddress="@ + address_text(st.address);
    let p4 = p3 + "\tgateway="@ + address_text(st.gateway);
    let p5 = p4 + "\tdns="@ + dns_text(st.dns);
    let p6 = p5 + "\tin="@ + decimal(st.packets_in as nat);
    let p7 = p6 + "\tout="@ + decimal(st.packets_out as nat);
    lemma_joined_step(f, 1, p0, "device="@, st.device_text());
    lemma_joined_step(f, 2, p1, "interface="@, st.interface_text());
    lemma_joined_step(f, 3, p2, "address="@, address_text(st.address));
    lemma_joined_step(f, 4, p3, "gateway="@, address_text(st.gateway));
    lemma_joined_step(f, 5, p4, "dns="@, dns_text(st.dns));
    lemma_joined_step(f, 6, p5, "in="@, decimal(st.packets_in as nat));
    lemma_joined_step(f, 7, p6, "out="@, decimal(st.packets_out as nat));
    assert(f.take(8) =~= f);
    split_undoes_joining(f, t);
    lemma_joined_without(f, t, '\n');
    reveal_strlit("\n");
    lemma_drop_newline(p7);
}

/// What is shown of the daemon's line are its fields, each on a line of its own.
pub proof fn shown_status_is_the_daemons(st: StatusView)
    ensures
        field_lines(split(trimmed(st.line()), '\t')) == field_lines(status_fields(st)),
{
    status_line_keeps_its_fields(st);
    let line = st.line();
    let body = line.drop_last();
    reveal_strlit("state=");
    reveal_strlit("\n");
    assert(line[0] == 's');
    assert(leading(line) == 0);
    assert(line.skip(0) =~= line);
    lemma_decimal_digits(st.packets_out as nat);
    let out = decimal(st.packets_out as nat);
    assert(body.last() == out.last());
    assert('0' <= out[out.len() - 1] <= '9');
    assert(trimmed_end(line) == trimmed_end(body));
    assert(trimmed_end(body) == body);
}

proof fn lemma_drop_newline(p: Seq<char>)
    ensures
        (p + "\n"@).last() == '\n',
        (p + "\n"@).drop_last() == p,
{
    reveal_strlit("\n");
    assert((p + "\n"@).drop_last() =~= p);
}

/// One more labelled value behind a tab is one more field.
proof fn lemma_joined_step(
    f: Seq<Seq<char>>,
    k: int,
    so_far: Seq<char>,
    label: Seq<char>,
    value: Seq<char>,
)
    requires
        1 <= k < f.len(),
        f[k] == label + value,
        k == 1 ==> so_far == f[0],
        k > 1 ==> so_far == joined(f.take(k), '\t'),
    ensures
        so_far + (seq!['\t'] + label) + value == joined(f.take(k + 1), '\t'),
{
    let upto = f.take(k + 1);
    assert(upto.drop_last() =~= f.take(k));
    assert(k == 1 ==> joined(f.take(1), '\t') == f[0]);
    assert(so_far + (seq!['\t'] + label) + value =~= so_far.push('\t') + (label + value));
}

/// Each label but the first is a tab and the label.
proof fn lemma_tab_labels()
    ensures
        "\tdevice="@ == seq!['\t'] + "device="@,
        "\tinterface="@ == seq!['\t'] + "interface="@,
        "\taddress="@ == seq!['\t'] + "address="@,
        "\tgateway="@ == seq!['\t'] + "gateway="@,
        "\tdns="@ == seq!['\t'] + "dns="@,
        "\tin="@ == seq!['\t'] + "in="@,
        "\tout="@ == seq!['\t'] + "out="@,
{
    reveal_strlit("\tdevice=");
    reveal_strlit("device=");
    reveal_strlit("\tinterface=");
    reveal_strlit("interface=");
    reveal_strlit("\taddress=");
    reveal_strlit("address=");
    reveal_strlit("\tgateway=");
    reveal_strlit("gateway=");
    reveal_strlit("\tdns=");
    reveal_strlit("dns=");
    reveal_strlit("\tin=");
    reveal_strlit("in=");
    reveal_strlit("\tout=");
    reveal_strlit("out=");
    assert("\tdevice="@ =~= seq!['\t'] + "device="@);
    assert("\tinterface="@ =~= seq!['\t'] + "interface="@);
    assert("\taddress="@ =~= seq!['\t'] + "address="@);
    assert("\tgateway="@ =~= seq!['\t'] + "gateway="@);
    assert("\tdns="@ =~= seq!['\t'] + "dns="@);
    assert("\tin="@ =~= seq!['\t'] + "in="@);
    assert("\tout="@ =~= seq!['\t'] + "out="@);
}

proof fn lemma_concat_without(a: Seq<char>, b: Seq<char>, c: char)
    requires
        !a.contains(c),
        !b.contains(c),
    ensures
        !(a + b).contains(c),
{
    if (a + b).contains(c) {
        let i = choose|i: int| 0 <= i < (a + b).len() && (a + b)[i] == c;
        if i < a.len() {
            assert(a[i] == c);
        } else {
            assert(b[i - a.len()] == c);
        }
    }
}

proof fn lemma_decimal_without(n: nat, c: char)
    requires
        breaks(c),
    ensures
        !decimal(n).contains(c),
{
    lemma_decimal_digits(n);
}

proof fn lemma_address_without(a: Ipv4Addr, c: char)
    requires
        breaks(c),
    ensures
        !a.text().contains(c),
{
    reveal_strlit(".");
    let b = a.bytes();
    let p0 = decimal(b[0] as nat);
    let p1 = decimal(b[1] as nat);
    let p2 = decimal(b[2] as nat);
    let p3 = decimal(b[3] as nat);
    lemma_decimal_without(b[0] as nat, c);
    lemma_decimal_without(b[1] as nat, c);
    lemma_decimal_without(b[2] as nat, c);
    lemma_decimal_without(b[3] as nat, c);
    assert(!"."@.contains(c));
    lemma_concat_without(p0, "."@, c);
    lemma_concat_without(p0 + "."@, p1, c);
    lemma_concat_without(p0 + "."@ + p1, "."@, c);
    lemma_concat_without(p0 + "."@ + p1 + "."@, p2, c);
    lemma_concat_without(p0 + "."@ + p1 + "."@ + p2, "."@, c);
    lemma_concat_without(p0 + "."@ + p1 + "."@ + p2 + "."@, p3, c);
}

proof fn lemma_address_list_without(v: Seq<Ipv4Addr>, c: char)
    requires
        breaks(c),
    ensures
        !address_list(v).contains(c),
    decreases v.len(),
{
    if v.len() == 1 {
        lemma_address_without(v[0], c);
    } else if v.len() > 1 {
        reveal_strlit(",");
        assert(!","@.contains(c));
        lemma_address_list_without(v.drop_last(), c);
        lemma_address_without(v.last(), c);
        lemma_concat_without(address_list(v.drop_last()), ","@, c);
        lemma_concat_without(address_list(v.drop_last()) + ","@, v.last().text(), c);
    }
}

proof fn lemma_values_without(st: StatusView, c: char)
    requires
        breaks(c),
    ensures
        forall|i: int| 0 <= i < 8 ==> !(#[trigger] status_fields(st)[i]).contains(c),
{
    reveal_strlit("-");
    reveal_strlit("state=");
    reveal_strlit("connected");
    reveal_strlit("waiting");
    reveal_strlit("device=");
    reveal_strlit("interface=");
    reveal_strlit("address=");
    reveal_strlit("gateway=");
    reveal_strlit("dns=");
    reveal_strlit("in=");
    reveal_strlit("out=");
    let f = status_fields(st);
    assert(!"-"@.contains(c));
    assert(!st.device_text().contains(c)) by {
        let d = or_dash(st.device);
        if st.device_text().contains(c) {
            let i = choose|i: int| 0 <= i < d.len() && st.device_text()[i] == c;
            assert(false);
        }
    }
    assert(!st.interface_text().contains(c)) by {
        let d = or_dash(st.interface);
        if st.interface_text().contains(c) {
            let i = choose|i: int| 0 <= i < d.len() && st.interface_text()[i] == c;
            assert(false);
        }
    }
    lemma_concat_without("state="@, st.state_text(), c);
    lemma_concat_without("device="@, st.device_text(), c);
    lemma_concat_without("interface="@, st.interface_text(), c);
    if let Some(a) = st.address {
        lemma_address_without(a, c);
    }
    lemma_concat_without("address="@, address_text(st.address), c);
    if let Some(a) = st.gateway {
        lemma_address_without(a, c);
    }
    lemma_concat_without("gateway="@, address_text(st.gateway), c);
    lemma_address_list_without(st.dns, c);
    lemma_concat_without("dns="@, dns_text(st.dns), c);
    lemma_decimal_without(st.packets_in as nat, c);
    lemma_concat_without("in="@, decimal(st.packets_in as nat), c);
    lemma_decimal_without(st.packets_out as nat, c);
    lemma_concat_without("out="@, decimal(st.packets_out as nat), c);
    assert(f.len() == 8);
    assert(!f[0].contains(c) && !f[1].contains(c) && !f[2].contains(c)
        && !f[3].contains(c) && !f[4].contains(c) && !f[5].contains(c)
        && !f[6].contains(c) && !f[7].contains(c));
}

/// What a status line says, field by field: whether the link is up, then each thing that
/// is known, or a dash.
pub proof fn status_lines_say_what_is_known(st: StatusView)
    ensures
        ({
            let f = split(st.line().drop_last(), '\t');
            &&& f.len() == 8
            &&& f[0] == "state="@ + (if st.link_up {
                "connected"@
            } else {
                "waiting"@
            })
            &&& f[1] == "device="@ + (match st.device {
                Some(name) => flat(name),
                None => "-"@,
            })
            &&& f[2] == "interface="@ + (match st.interface {
                Some(name) => flat(name),
                None => "-"@,
            })
            &&& f[3] == "address="@ + (match st.address {
                Some(a) => a.text(),
                None => "-"@,
            })
            &&& f[4] == "gateway="@ + (match st.gateway {
                Some(a) => a.text(),
                None => "-"@,
            })
            &&& st.dns.len() == 0 ==> f[5] == "dns="@ + "-"@
            &&& st.dns.len() > 0 ==> f[5] == "dns="@ + joined(
                st.dns.map_values(|a: Ipv4Addr| a.text()),
                ',',
            )
            &&& f[6] == "in="@ + decimal(st.packets_in as nat)
            &&& f[7] == "out="@ + decimal(st.packets_out as nat)
        }),
{
    status_line_keeps_its_fields(st);
    lemma_address_list_joined(st.dns);
    reveal_strlit("-");
    assert(flat("-"@) =~= "-"@);
}

/// A field is shown as its key, filled up to ten columns, a blank, and its value.
pub proof fn fields_are_shown_in_columns(key: Seq<char>, value: Seq<char>)
    requires
        !key.contains('='),
    ensures
        ({
            let shown = field_line(key.push('=') + value);
            let width = if key.len() < 10 {
                10
            } else {
                key.len() as int
            };
            &&& shown.len() == width + 2 + value.len()
            &&& shown.take(key.len() as int) == key
            &&& forall|i: int| key.len() <= i <= width ==> shown[i] == ' '
            &&& shown.subrange(width + 1, width + 1 + value.len()) == value
            &&& shown.last() == '\n'
        }),
{
    let field = key.push('=') + value;
    the_first_place_is_first(field, '=', 0);
    assert(field[key.len() as int] == '=');
    let i = first_at(field, '=', 0)->0;
    assert(i == key.len()) by {
        if i < key.len() {
            assert(key[i] == '=');
        }
    }
    reveal_strlit(" ");
    reveal_strlit("\n");
    assert(field.take(i) =~= key);
    assert(field.skip(i + 1) =~= value);
    let width = if key.len() < 10 {
        10
    } else {
        key.len() as int
    };
    let shown = field_line(field);
    assert(shown.take(key.len() as int) =~= key);
    assert(shown.subrange(width + 1, width + 1 + value.len()) =~= value);
}

/// Every field is shown, in order, on a line of its own.
pub proof fn every_field_is_shown(first: Seq<Seq<char>>, field: Seq<char>, rest: Seq<Seq<char>>)
    ensures
        field_lines(first.push(field) + rest) == field_lines(first) + field_line(field)
            + field_lines(rest),
    decreases rest.len(),
{
    let all = first.push(field) + rest;
    if rest.len() == 0 {
        assert(all =~= first.push(field));
        assert(first.push(field).drop_last() =~= first);
        assert(field_lines(first) + field_line(field) + field_lines(rest) =~= field_lines(first)
            + field_line(field));
    } else {
        every_field_is_shown(first, field, rest.drop_last());
        assert(all.drop_last() =~= first.push(field) + rest.drop_last());
        assert(field_lines(all) =~= field_lines(first) + field_line(field) + field_lines(rest));
    }
}

proof fn lemma_address_list_joined(v: Seq<Ipv4Addr>)
    ensures
        address_list(v) == joined(v.map_values(|a: Ipv4Addr| a.text()), ','),
    decreases v.len(),
{
    let parts = v.map_values(|a: Ipv4Addr| a.text());
    if v.len() > 1 {
        lemma_address_list_joined(v.drop_last());
        reveal_strlit(",");
        assert(parts.drop_last() =~= v.drop_last().map_values(|a: Ipv4Addr| a.text()));
        assert(address_list(v) =~= joined(parts, ','));
    }
}

/// What is said of a status is what stands in it.
pub proof fn statuses_show_all_they_hold(s: Status)
    ensures
        s@.device == text_of(s.device),
        s@.link_up == s.link_up,
        s@.interface == text_of(s.interface),
        s@.address == s.address,
        s@.gateway == s.gateway,
        s@.dns == s.dns@,
        s@.packets_in == s.packets_in,
        s@.packets_out == s.packets_out,
{
}

} // verus!

//! Presentation of the ports that the driver lists: a label for the kind of
//! transport, a name to display, and an order.

use vstd::prelude::*;
use vstd::string::StringExecFns;
use crate::pattern::{regex_replace_all, replace_all};
use crate::text::{lemma_text_le_order, opt_text, text_le, text_precedes};
use crate::types::{
    DetectedPort, DetectedPortView, DriverError, PortInfo, PortInfoView, Transport, TransportView,
};

verus! {

/// The pattern, in the syntax of the `regex` crate, of what is cut off the
/// end of a product name: the number of a COM port in round brackets, in
/// upper or lower case, with the blanks around it.
pub const COM_SUFFIX: &'static str = r" *\((?i:COM)\d+\) *$";

/// The label of a transport kind.
pub open spec fn label_of(transport: TransportView) -> Seq<char> {
    match transport {
        TransportView::Usb { .. } => "usb"@,
        TransportView::Pci => "pci"@,
        TransportView::Bluetooth => "bluetooth"@,
        TransportView::Unknown => "unknown"@,
    }
}

/// A product name without its COM suffix; the name as it is should the
/// pattern not be accepted.
pub open spec fn without_com_suffix(product: Seq<char>) -> Seq<char> {
    match regex_replace_all(COM_SUFFIX@, product, ""@) {
        Some(rest) => rest,
        None => product,
    }
}

/// The tag shown behind a port's name: the product name without its COM
/// suffix where the driver knows one, the label of the transport otherwise.
pub open spec fn tag_of(port: DetectedPortView) -> Seq<char> {
    match port.transport {
        TransportView::Usb { product: Some(name), .. } => without_com_suffix(name),
        _ => label_of(port.transport),
    }
}

/// The name under which a port is displayed.
pub open spec fn show_name_of(port_name: Seq<char>, tag: Seq<char>) -> Seq<char> {
    port_name + " ["@ + tag + "]"@
}

/// How `port` is presented when it is tagged with `tag`. Manufacturer and
/// product are given for USB only.
pub open spec fn presented(port: DetectedPortView, tag: Seq<char>) -> PortInfoView {
    PortInfoView {
        port_name: port.port_name,
        port_type: label_of(port.transport),
        show_name: show_name_of(port.port_name, tag),
        manufacturer: match port.transport {
            TransportView::Usb { manufacturer, .. } => manufacturer,
            _ => None,
        },
        product: match port.transport {
            TransportView::Usb { product, .. } => product,
            _ => None,
        },
    }
}

/// How `port` is presented.
pub open spec fn port_info_of(port: DetectedPortView) -> PortInfoView {
    presented(port, tag_of(port))
}

/// The contents of a list of detected ports, in order.
pub open spec fn detected_views(list: Seq<DetectedPort>) -> Seq<DetectedPortView> {
    list.map_values(|p: DetectedPort| p@)
}

/// The contents of a list of presented ports, in order.
pub open spec fn info_views(list: Seq<PortInfo>) -> Seq<PortInfoView> {
    list.map_values(|p: PortInfo| p@)
}

/// The entries of `infos` for the port `name`, in order.
pub open spec fn named_as(infos: Seq<PortInfoView>, name: Seq<char>) -> Seq<PortInfoView> {
    infos.filter(|p: PortInfoView| p.port_name == name)
}

/// `infos` is in lexicographic order of port names.
pub open spec fn sorted_by_name(infos: Seq<PortInfoView>) -> bool {
    forall|i: int, j: int|
        0 <= i < j < infos.len() ==> text_le(
            (#[trigger] infos[i]).port_name,
            (#[trigger] infos[j]).port_name,
        )
}

/// `infos` presents exactly the ports of `ports`, in lexicographic order of
/// their names, and ports of one name in the order in which `ports` has
/// them.
pub open spec fn is_listing_of(infos: Seq<PortInfoView>, ports: Seq<DetectedPortView>) -> bool {
    &&& infos.len() == ports.len()
    &&& sorted_by_name(infos)
    &&& forall|name: Seq<char>|
        #[trigger] named_as(infos, name) == named_as(
            ports.map_values(|p: DetectedPortView| port_info_of(p)),
            name,
        )
}

/// What is listed for the outcome of the driver's scan: nothing where the
/// scan failed.
pub open spec fn scanned(scan: Result<Vec<DetectedPort>, DriverError>) -> Seq<DetectedPortView> {
    match scan {
        Ok(list) => detected_views(list@),
        Err(_) => Seq::empty(),
    }
}

/// A copy of an optional string.
fn copy_of(value: &Option<String>) -> (copy: Option<String>)
    ensures
        opt_text(copy) == opt_text(*value),
{
    match value {
        Some(text) => Some(text.clone()),
        None => None,
    }
}

/// The label of the port's transport kind.
pub fn transport_label(transport: &Transport) -> (label: String)
    ensures
        label@ == label_of(transport@),
{
    match transport {
        Transport::Usb(_) => String::from_str("usb"),
        Transport::Pci => String::from_str("pci"),
        Transport::Bluetooth => String::from_str("bluetooth"),
        Transport::Unknown => String::from_str("unknown"),
    }
}

/// Cuts the COM suffix off a product name.
pub fn strip_com_suffix(product: &str) -> (rest: String)
    ensures
        rest@ == without_com_suffix(product@),
{
    match replace_all(COM_SUFFIX, product, "") {
        Some(rest) => rest,
        None => String::from_str(product),
    }
}

/// The tag shown behind the port's name.
pub fn port_tag(port: &DetectedPort) -> (tag: String)
    ensures
        tag@ == tag_of(port@),
{
    match &port.transport {
        Transport::Usb(usb) => match &usb.product {
            Some(name) => strip_com_suffix(name.as_str()),
            None => String::from_str("usb"),
        },
        other => transport_label(other),
    }
}

/// Presents `port` with the tag `tag`.
pub fn present(port: &DetectedPort, tag: &str) -> (info: PortInfo)
    ensures
        info@ == presented(port@, tag@),
{
    let show_name = port.port_name.clone().concat(" [").concat(tag).concat("]");
    let (manufacturer, product) = match &port.transport {
        Transport::Usb(usb) => (copy_of(&usb.manufacturer), copy_of(&usb.product)),
        _ => (None, None),
    };
    PortInfo {
        port_name: port.port_name.clone(),
        port_type: transport_label(&port.transport),
        show_name,
        manufacturer,
        product,
    }
}

/// Inserting an entry leaves the entries of every other name as they were,
/// and puts it behind the entries of its own name where none of them comes
/// after the place of insertion.
proof fn lemma_named_as_insert(infos: Seq<PortInfoView>, at: int, info: PortInfoView, name: Seq<char>)
    requires
        0 <= at <= infos.len(),
        forall|k: int| at <= k < infos.len() ==> (#[trigger] infos[k]).port_name != info.port_name,
    ensures
        named_as(infos.insert(at, info), name) == if info.port_name == name {
            named_as(infos, name).push(info)
        } else {
            named_as(infos, name)
        },
{
    let pred = |p: PortInfoView| p.port_name == name;
    let front = infos.subrange(0, at);
    let back = infos.subrange(at, infos.len() as int);
    assert(infos =~= front + back);
    assert(infos.insert(at, info) =~= front.push(info) + back);
    Seq::filter_distributes_over_add(front, back, pred);
    Seq::filter_distributes_over_add(front.push(info), back, pred);
    front.lemma_filter_push(info, pred);
    if info.port_name == name {
        assert(back.all(|p: PortInfoView| !pred(p))) by {
            assert forall|k: int| 0 <= k < back.len() implies !pred(#[trigger] back[k]) by {
                assert(back[k] == infos[at + k]);
            }
        }
        back.lemma_all_neg_filter_empty(pred);
        assert(back.filter(pred) =~= Seq::<PortInfoView>::empty());
        assert(front.filter(pred).push(info) + back.filter(pred) =~= (front.filter(pred)
            + back.filter(pred)).push(info));
    }
}

/// Where `infos` is in order, no name comes after the name of its last
/// entry.
proof fn lemma_last_name_is_greatest(infos: Seq<PortInfoView>, entry: PortInfoView)
    requires
        sorted_by_name(infos),
        infos.contains(entry),
    ensures
        text_le(entry.port_name, infos.last().port_name),
{
    let k = choose|k: int| 0 <= k < infos.len() && infos[k] == entry;
    if k < infos.len() - 1 {
        assert(text_le(infos[k].port_name, infos[infos.len() - 1].port_name));
    } else {
        lemma_text_le_order(entry.port_name, entry.port_name, entry.port_name);
    }
}

/// Two lists in order of names that hold, for every name, the same entries
/// in the same order are the same list.
proof fn lemma_order_and_names_determine(a: Seq<PortInfoView>, b: Seq<PortInfoView>)
    requires
        a.len() == b.len(),
        sorted_by_name(a),
        sorted_by_name(b),
        forall|name: Seq<char>| #[trigger] named_as(a, name) == named_as(b, name),
    ensures
        a == b,
    decreases a.len(),
{
    if a.len() == 0 {
        assert(a =~= b);
    } else {
        let x = a.last();
        let y = b.last();
        let of_x = |p: PortInfoView| p.port_name == x.port_name;
        let of_y = |p: PortInfoView| p.port_name == y.port_name;
        assert(a =~= a.drop_last().push(x));
        assert(b =~= b.drop_last().push(y));
        a.drop_last().lemma_filter_push(x, of_x);
        b.drop_last().lemma_filter_push(y, of_y);
        assert(named_as(a, x.port_name) == named_as(b, x.port_name));
        assert(named_as(a, y.port_name) == named_as(b, y.port_name));
        // The name of each last entry occurs in the other list too.
        assert(named_as(b, x.port_name).last() == x);
        assert(named_as(b, x.port_name).contains(x));
        b.lemma_filter_contains_rev(of_x, x);
        lemma_last_name_is_greatest(b, x);
        assert(named_as(a, y.port_name).last() == y);
        assert(named_as(a, y.port_name).contains(y));
        a.lemma_filter_contains_rev(of_y, y);
        lemma_last_name_is_greatest(a, y);
        lemma_text_le_order(x.port_name, y.port_name, x.port_name);
        assert(x.port_name == y.port_name);
        assert(x == y);
        assert forall|name: Seq<char>| #[trigger]
            named_as(a.drop_last(), name) == named_as(b.drop_last(), name) by {
            let of_name = |p: PortInfoView| p.port_name == name;
            a.drop_last().lemma_filter_push(x, of_name);
            b.drop_last().lemma_filter_push(y, of_name);
            assert(named_as(a, name) == named_as(b, name));
            if x.port_name == name {
                assert(named_as(a.drop_last(), name) =~= named_as(a, name).drop_last());
                assert(named_as(b.drop_last(), name) =~= named_as(b, name).drop_last());
            }
        }
        assert forall|i: int, j: int| 0 <= i < j < a.drop_last().len() implies text_le(
            (#[trigger] a.drop_last()[i]).port_name,
            (#[trigger] a.drop_last()[j]).port_name,
        ) by {
            assert(a.drop_last()[i] == a[i] && a.drop_last()[j] == a[j]);
        }
        assert forall|i: int, j: int| 0 <= i < j < b.drop_last().len() implies text_le(
            (#[trigger] b.drop_last()[i]).port_name,
            (#[trigger] b.drop_last()[j]).port_name,
        ) by {
            assert(b.drop_last()[i] == b[i] && b.drop_last()[j] == b[j]);
        }
        lemma_order_and_names_determine(a.drop_last(), b.drop_last());
    }
}

/// The ports found have one listing only: order and contents are fixed by
/// what was found.
pub proof fn lemma_listing_is_unique(
    a: Seq<PortInfoView>,
    b: Seq<PortInfoView>,
    ports: Seq<DetectedPortView>,
)
    requires
        is_listing_of(a, ports),
        is_listing_of(b, ports),
    ensures
        a == b,
{
    let all = ports.map_values(|p: DetectedPortView| port_info_of(p));
    assert forall|name: Seq<char>| #[trigger] named_as(a, name) == named_as(b, name) by {
        assert(named_as(a, name) == named_as(all, name));
        assert(named_as(b, name) == named_as(all, name));
    }
    lemma_order_and_names_determine(a, b);
}

/// The ports that the driver's scan found, presented and in lexicographic
/// order of their names; none where the scan failed.
pub fn available_ports(scan: Result<Vec<DetectedPort>, DriverError>) -> (infos: Vec<PortInfo>)
    ensures
        is_listing_of(info_views(infos@), scanned(scan)),
{
    let mut infos: Vec<PortInfo> = Vec::new();
    let list = match scan {
        Ok(list) => list,
        Err(_) => Vec::new(),
    };
    let ghost ports = detected_views(list@);
    let ghost all = ports.map_values(|p: DetectedPortView| port_info_of(p));
    assert(ports =~= scanned(scan));
    let mut i: usize = 0;
    assert forall|name: Seq<char>| #[trigger]
        named_as(info_views(infos@), name) == named_as(all.take(0), name) by {
        assert(info_views(infos@) =~= all.take(0));
    }
    while i < list.len()
        invariant
            i <= list.len(),
            ports == detected_views(list@),
            all == ports.map_values(|p: DetectedPortView| port_info_of(p)),
            infos@.len() == i,
            sorted_by_name(info_views(infos@)),
            forall|name: Seq<char>| #[trigger]
                named_as(info_views(infos@), name) == named_as(all.take(i as int), name),
        decreases list.len() - i,
    {
        let tag = port_tag(&list[i]);
        let info = present(&list[i], tag.as_str());
        assert(info@ == all[i as int]);
        let ghost before = info_views(infos@);
        let mut at: usize = infos.len();
        while at > 0 && !text_precedes(infos[at - 1].port_name.as_str(), info.port_name.as_str())
            invariant
                at <= infos@.len(),
                before == info_views(infos@),
                forall|k: int|
                    at <= k < before.len() ==> !text_le(
                        (#[trigger] before[k]).port_name,
                        info@.port_name,
                    ),
            decreases at,
        {
            at -= 1;
        }
        infos.insert(at, info);
        proof {
            let after = info_views(infos@);
            assert(after =~= before.insert(at as int, info@));
            assert forall|a: int, b: int| 0 <= a < b < after.len() implies text_le(
                (#[trigger] after[a]).port_name,
                (#[trigger] after[b]).port_name,
            ) by {
                let x = info@.port_name;
                if b < at {
                    assert(after[a] == before[a] && after[b] == before[b]);
                } else if b == at {
                    assert(after[a] == before[a]);
                    assert(text_le(before[at - 1].port_name, x));
                    if a < at - 1 {
                        lemma_text_le_order(before[a].port_name, before[at - 1].port_name, x);
                    }
                } else if a == at {
                    assert(after[b] == before[b - 1]);
                    lemma_text_le_order(x, before[b - 1].port_name, x);
                } else if a < at {
                    assert(after[a] == before[a] && after[b] == before[b - 1]);
                } else {
                    assert(after[a] == before[a - 1] && after[b] == before[b - 1]);
                }
            }
            assert forall|k: int| at <= k < before.len() implies (#[trigger] before[k]).port_name
                != info@.port_name by {
                lemma_text_le_order(info@.port_name, info@.port_name, info@.port_name);
            }
            assert(all.take(i + 1) =~= all.take(i as int).push(info@));
            assert forall|name: Seq<char>| #[trigger]
                named_as(after, name) == named_as(all.take(i + 1), name) by {
                lemma_named_as_insert(before, at as int, info@, name);
                all.take(i as int).lemma_filter_push(
                    info@,
                    |p: PortInfoView| p.port_name == name,
                );
                assert(named_as(before, name) == named_as(all.take(i as int), name));
            }
        }
        i += 1;
    }
    assert(all.take(i as int) =~= all);
    infos
}

} // verus!

//! What the engine asks of the kernel's routing table: routes to replace
//! and routes to delete.

use vstd::prelude::*;
use crate::addr::{dotted, dotted_text};
use crate::route::{NextHopView, RouteView};
use crate::table::next_hop;
use crate::text::{chars_of, last_field, occurrences, texts};

verus! {

/// One request to the kernel's routing table.
#[derive(Clone, PartialEq, Eq, Debug)]
pub enum RouteOp {
    /// Route `cidr` through the neighbour `via`, whatever route it had.
    Replace { cidr: String, via: u32 },
    /// Remove the route to `cidr`.
    Delete { cidr: String },
}

/// A [`RouteOp`] as a mathematical value.
pub enum RouteOpView {
    Replace { cidr: Seq<char>, via: u32 },
    Delete { cidr: Seq<char> },
}

impl View for RouteOp {
    type V = RouteOpView;

    open spec fn view(&self) -> RouteOpView {
        match self {
            RouteOp::Replace { cidr, via } => RouteOpView::Replace { cidr: cidr@, via: *via },
            RouteOp::Delete { cidr } => RouteOpView::Delete { cidr: cidr@ },
        }
    }
}

/// The views of a sequence of requests.
pub open spec fn route_op_views(v: Seq<RouteOp>) -> Seq<RouteOpView> {
    v.map_values(|op: RouteOp| op@)
}

/// The destination that a request is about.
pub open spec fn target(op: RouteOpView) -> Seq<char> {
    match op {
        RouteOpView::Replace { cidr, via } => cidr,
        RouteOpView::Delete { cidr } => cidr,
    }
}

/// The words that follow the name of the routing tool on its command
/// line: `route replace <cidr> via <ipv4>`, or `route delete <cidr>`.
pub open spec fn arguments_of(op: RouteOpView) -> Seq<Seq<char>> {
    match op {
        RouteOpView::Replace { cidr, via } => seq![
            "route"@,
            "replace"@,
            cidr,
            "via"@,
            dotted(via),
        ],
        RouteOpView::Delete { cidr } => seq!["route"@, "delete"@, cidr],
    }
}

impl RouteOp {
    /// The words of this request on the routing tool's command line.
    pub fn arguments(&self) -> (words: Vec<String>)
        ensures
            texts(words@) == arguments_of(self@),
    {
        let mut words: Vec<String> = Vec::new();
        words.push("route".to_owned());
        match self {
            RouteOp::Replace { cidr, via } => {
                words.push("replace".to_owned());
                words.push(cidr.clone());
                words.push("via".to_owned());
                words.push(dotted_text(*via));
            },
            RouteOp::Delete { cidr } => {
                words.push("delete".to_owned());
                words.push(cidr.clone());
            },
        }
        assert(texts(words@) =~= arguments_of(self@));
        words
    }
}

/// Whether the text of a destination denotes a host rather than a network:
/// it ends in `/24` behind an address of four dotted fields with no other
/// slash, and the last field is not `0`.
pub open spec fn denotes_host(cidr: Seq<char>) -> bool {
    let n = cidr.len() - 3;
    let addr = cidr.take(n);
    &&& cidr.len() >= 3
    &&& cidr.skip(n) == seq!['/', '2', '4']
    &&& !addr.contains('/')
    &&& occurrences(addr, '.') == 3
    &&& last_field(addr, '.') != seq!['0']
}

/// Whether `cidr` denotes a host rather than a network.
pub fn is_host_address(cidr: &str) -> (r: bool)
    ensures
        r == denotes_host(cidr@),
{
    let v = chars_of(cidr);
    let n = v.len();
    if n < 3 {
        return false;
    }
    let m: usize = n - 3;
    if v[m] != '/' || v[m + 1] != '2' || v[m + 2] != '4' {
        assert(v@.skip(m as int)[0] == v@[m as int]);
        assert(v@.skip(m as int)[1] == v@[m + 1]);
        assert(v@.skip(m as int)[2] == v@[m + 2]);
        return false;
    }
    assert(v@.skip(m as int) =~= seq!['/', '2', '4']);
    let ghost addr = v@.take(m as int);
    let mut slash = false;
    let mut dots: usize = 0;
    let mut start: usize = 0;
    let mut i: usize = 0;
    assert(addr.take(0) =~= Seq::<char>::empty());
    while i < m
        invariant
            m + 3 == v.len(),
            addr == v@.take(m as int),
            i <= m,
            start <= i,
            dots <= i,
            slash == addr.take(i as int).contains('/'),
            dots == occurrences(addr.take(i as int), '.'),
            last_field(addr.take(i as int), '.') == addr.subrange(start as int, i as int),
        decreases m - i,
    {
        let c = v[i];
        proof {
            let before = addr.take(i as int);
            let after = addr.take(i + 1);
            assert(after.drop_last() =~= before);
            assert(after.last() == c);
            assert(after.contains('/') == (before.contains('/') || c == '/')) by {
                if before.contains('/') {
                    let k = choose|k: int| 0 <= k < before.len() && before[k] == '/';
                    assert(after[k] == '/');
                }
                if c == '/' {
                    assert(after[i as int] == '/');
                }
                if after.contains('/') {
                    let k = choose|k: int| 0 <= k < after.len() && after[k] == '/';
                    if k < i {
                        assert(before[k] == '/');
                    }
                }
            }
            if c == '.' {
                assert(addr.subrange(i + 1, i + 1) =~= Seq::<char>::empty());
            } else {
                assert(addr.subrange(start as int, i + 1) =~= addr.subrange(
                    start as int,
                    i as int,
                ).push(c));
            }
        }
        if c == '/' {
            slash = true;
        }
        if c == '.' {
            dots += 1;
            start = i + 1;
        }
        i += 1;
    }
    assert(addr.take(m as int) =~= addr);
    let zero = m - start == 1 && v[start] == '0';
    proof {
        let field = addr.subrange(start as int, m as int);
        if zero {
            assert(field =~= seq!['0']);
        } else if field == seq!['0'] {
            assert(field.len() == 1);
            assert(field[0] == '0');
        }
    }
    !slash && dots == 3 && !zero
}

/// Whether `r` is a learned route that the kernel is asked to hold.
pub open spec fn installable() -> spec_fn(RouteView) -> bool {
    |r: RouteView| r.via is Remote && !denotes_host(r.cidr)
}

/// The kernel routes asked for by the table `t`: one for each learned
/// route whose destination does not denote a host, in table order.
pub open spec fn replacements(t: Seq<RouteView>) -> Seq<NextHopView> {
    t.filter(installable()).map_values(|r: RouteView| next_hop(r))
}

/// The request to install the kernel route `h`.
pub open spec fn replace_op(h: NextHopView) -> RouteOpView {
    RouteOpView::Replace { cidr: h.cidr, via: h.via }
}

/// The request to remove the route to `cidr`.
pub open spec fn delete_op(cidr: Seq<char>) -> RouteOpView {
    RouteOpView::Delete { cidr }
}

/// A replacement for each of `wanted`, in order.
pub open spec fn replace_ops(wanted: Seq<NextHopView>) -> Seq<RouteOpView> {
    wanted.map_values(|h: NextHopView| replace_op(h))
}

/// A deletion for each of `gone`, in order.
pub open spec fn delete_ops(gone: Seq<Seq<char>>) -> Seq<RouteOpView> {
    gone.map_values(|c: Seq<char>| delete_op(c))
}

/// The requests of one reconciliation: a replacement for each of
/// `wanted`, then a deletion for each of `gone`.
pub open spec fn reconciled(wanted: Seq<NextHopView>, gone: Seq<Seq<char>>) -> Seq<RouteOpView> {
    replace_ops(wanted) + delete_ops(gone)
}

} // verus!

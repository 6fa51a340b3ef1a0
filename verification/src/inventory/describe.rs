//! Hosts and inventories as text.
use vstd::prelude::*;
use super::group::Group;
use super::host::Host;
use super::{find_host, host_index, Inventory};
use crate::numbers::{decimal, push_decimal};
use crate::text::{copy_str, views};

verus! {

broadcast use vstd::seq_lib::group_seq_properties;

/// How a host reads: its name, and its address in parentheses when it has one.
pub open spec fn host_text(h: Host) -> Seq<char> {
    match h.ansible_host {
        Some(a) => h.name@ + " ("@ + a@ + ")"@,
        None => h.name@,
    }
}

/// The lines of the hosts named `names` that the inventory holds.
pub open spec fn host_lines(hs: Seq<Host>, names: Seq<Seq<char>>) -> Seq<char>
    decreases names.len(),
{
    if names.len() == 0 {
        Seq::empty()
    } else {
        host_lines(hs, names.drop_last()) + match host_index(hs, names.last()) {
            Some(i) => "    "@ + host_text(hs[i]) + "\n"@,
            None => Seq::empty(),
        }
    }
}

/// The lines of the groups that have hosts or children: each name in
/// brackets, then its hosts.
pub open spec fn group_lines(hs: Seq<Host>, gs: Seq<Group>) -> Seq<char>
    decreases gs.len(),
{
    if gs.len() == 0 {
        Seq::empty()
    } else {
        let g = gs.last();
        group_lines(hs, gs.drop_last()) + if g.hosts@.len() == 0 && g.children@.len() == 0 {
            Seq::empty()
        } else {
            "  ["@ + g.name@ + "]\n"@ + host_lines(hs, views(g.hosts@))
        }
    }
}

/// How an inventory reads: how many hosts and groups it has, then its groups.
pub open spec fn inventory_text(hs: Seq<Host>, gs: Seq<Group>) -> Seq<char> {
    "Inventory ("@ + decimal(hs.len()) + " hosts, "@ + decimal(gs.len()) + " groups)\n"@ + group_lines(hs, gs)
}

impl Host {
    /// The host as text: its name, and its address in parentheses when set.
    pub fn describe(&self) -> (r: String)
        ensures
            r@ == host_text(*self),
    {
        let mut r = copy_str(self.name.as_str());
        match &self.ansible_host {
            Some(a) => {
                r.append(" (");
                r.append(a.as_str());
                r.append(")");
            },
            None => {},
        }
        r
    }
}

impl Inventory {
    /// The inventory as text: a count of hosts and groups, then each group
    /// with hosts or children and its hosts.
    pub fn describe(&self) -> (r: String)
        ensures
            r@ == inventory_text(self.hosts_view(), self.groups_view()),
    {
        let ghost hs = self.hosts@;
        let ghost gs = self.groups@;
        let mut r = crate::text::copy_str("Inventory (");
        push_decimal(&mut r, self.hosts.len() as u64);
        r.append(" hosts, ");
        push_decimal(&mut r, self.groups.len() as u64);
        r.append(" groups)\n");
        let ghost head = r@;
        let mut i: usize = 0;
        proof {
            assert(gs.take(0) =~= Seq::<Group>::empty());
            assert(r@ =~= head + group_lines(hs, gs.take(0)));
        }
        while i < self.groups.len()
            invariant
                i <= gs.len(),
                gs == self.groups@,
                hs == self.hosts@,
                r@ == head + group_lines(hs, gs.take(i as int)),
            decreases gs.len() - i,
        {
            let g = &self.groups[i];
            let ghost before = r@;
            proof {
                assert(gs.take(i + 1).drop_last() =~= gs.take(i as int));
                assert(gs.take(i + 1).last() == gs[i as int]);
            }
            if g.hosts.len() > 0 || g.children.len() > 0 {
                r.append("  [");
                r.append(g.name.as_str());
                r.append("]\n");
                let ghost mid = r@;
                let mut j: usize = 0;
                proof {
                    assert(views(g.hosts@).take(0) =~= Seq::<Seq<char>>::empty());
                    assert(r@ =~= mid + host_lines(hs, views(g.hosts@).take(0)));
                }
                while j < g.hosts.len()
                    invariant
                        j <= g.hosts@.len(),
                        hs == self.hosts@,
                        r@ == mid + host_lines(hs, views(g.hosts@).take(j as int)),
                    decreases g.hosts@.len() - j,
                {
                    proof {
                        assert(views(g.hosts@).take(j + 1).drop_last() =~= views(g.hosts@).take(j as int));
                        assert(views(g.hosts@).take(j + 1).last() == g.hosts@[j as int]@);
                    }
                    let ghost pre = r@;
                    match find_host(&self.hosts, g.hosts[j].as_str()) {
                        Some(k) => {
                            let line = self.hosts[k].describe();
                            r.append("    ");
                            r.append(line.as_str());
                            r.append("\n");
                            proof {
                                assert(r@ =~= pre + ("    "@ + host_text(hs[k as int]) + "\n"@));
                            }
                        },
                        None => {
                            proof {
                                assert(r@ =~= pre + Seq::<char>::empty());
                            }
                        },
                    }
                    j = j + 1;
                }
                proof {
                    assert(views(g.hosts@).take(g.hosts@.len() as int) =~= views(g.hosts@));
                    assert(r@ =~= before + ("  ["@ + g.name@ + "]\n"@ + host_lines(hs, views(g.hosts@))));
                }
            } else {
                proof {
                    assert(r@ =~= before + Seq::<char>::empty());
                }
            }
            i = i + 1;
        }
        proof {
            assert(gs.take(gs.len() as int) =~= gs);
        }
        r
    }
}

} // verus!

//! Finding hosts on the local network: names of advertised services, and the
//! list of the hosts that answered.
use crate::text;
use vstd::prelude::*;

verus! {

/// The service type that hosts advertise and joiners browse for.
pub const SERVICE_TYPE: &'static str = "_frostwall._tcp.local.";

/// The host name that an instance is advertised under.
pub fn host_name(instance: &str) -> (h: String)
    ensures
        h@ == instance@ + ".local."@,
{
    text::concat(instance, ".local.")
}

/// The label that an instance name shows as: without the service's prefix, with
/// spaces for hyphens; the name itself where nothing would be left.
pub open spec fn display_name(instance: Seq<char>) -> Seq<char> {
    let slug = if "frostwall-"@.is_prefix_of(instance) {
        instance.skip("frostwall-"@.len() as int)
    } else {
        instance
    };
    if slug.len() == 0 {
        instance
    } else {
        text::replaced(slug, '-', ' ')
    }
}

/// Human-readable label from an instance name (`frostwall-my-mac` → `my mac`).
pub fn display_name_from_instance(instance: &str) -> (label: String)
    ensures
        label@ == display_name(instance@),
{
    let slug = match text::strip_prefix(instance, "frostwall-") {
        Some(rest) => rest,
        None => instance.to_owned(),
    };
    let label = text::replace(slug.as_str(), '-', ' ');
    assert(label@.len() == slug@.len());
    if label.as_str().is_empty() {
        instance.to_owned()
    } else {
        label
    }
}

/// What precedes the first `.` of a service's full name.
pub open spec fn instance_of(fullname: Seq<char>) -> Seq<char>
    decreases fullname.len(),
{
    if fullname.len() == 0 || fullname[0] == '.' {
        Seq::empty()
    } else {
        seq![fullname[0]] + instance_of(fullname.drop_first())
    }
}

/// What precedes the first `.` of a service's full name.
pub fn instance_name(fullname: &str) -> (name: String)
    ensures
        name@ == instance_of(fullname@),
{
    let cs = text::chars_of(fullname);
    let mut name = String::new();
    let mut i: usize = 0;
    assert(cs@.skip(0) =~= cs@);
    assert(name@ + instance_of(cs@) =~= instance_of(cs@));
    while i < cs.len() && cs[i] != '.'
        invariant
            cs@ == fullname@,
            i <= cs@.len(),
            name@ + instance_of(cs@.skip(i as int)) == instance_of(fullname@),
        decreases cs@.len() - i,
    {
        let ghost rest = cs@.skip(i as int);
        let ghost before = name@;
        assert(rest.drop_first() =~= cs@.skip(i as int + 1));
        name.push(cs[i]);
        assert(before + instance_of(rest) =~= name@ + instance_of(rest.drop_first()));
        i += 1;
    }
    assert(name@ + instance_of(cs@.skip(i as int)) =~= name@);
    name
}

/// A host on the local network.
#[derive(Debug, Clone, PartialEq, Eq)]
pub struct DiscoveredPeer {
    pub display_name: String,
    pub address: String,
    pub port: u16,
}

/// A host on the local network, by contents.
pub ghost struct PeerView {
    pub display_name: Seq<char>,
    pub address: Seq<char>,
    pub port: u16,
}

impl View for DiscoveredPeer {
    type V = PeerView;

    open spec fn view(&self) -> PeerView {
        PeerView {
            display_name: self.display_name@,
            address: self.address@,
            port: self.port,
        }
    }
}

/// The hosts that answered, each service once.
pub struct PeerList {
    names: Vec<String>,
    peers: Vec<DiscoveredPeer>,
}

impl PeerList {
    /// The full names of the services, in the order in which they answered
    /// first.
    pub closed spec fn names(&self) -> Seq<Seq<char>> {
        crate::path::texts(self.names@)
    }

    /// What is known of each service.
    pub closed spec fn peers(&self) -> Seq<PeerView> {
        self.peers@.map_values(|p: DiscoveredPeer| p@)
    }

    /// Each service is listed once.
    pub open spec fn wf(&self) -> bool {
        &&& self.names().len() == self.peers().len()
        &&& forall|i: int, j: int|
            0 <= i < j < self.names().len() ==> #[trigger] self.names()[i]
                != #[trigger] self.names()[j]
    }

    /// An empty list.
    pub fn new() -> (l: PeerList)
        ensures
            l.wf(),
            l.names() == Seq::<Seq<char>>::empty(),
            l.peers() == Seq::<PeerView>::empty(),
    {
        let l = PeerList { names: Vec::new(), peers: Vec::new() };
        assert(l.names() =~= Seq::empty());
        assert(l.peers() =~= Seq::empty());
        l
    }

    /// Note that the service `fullname` answered from an address. What it said
    /// last counts.
    pub fn resolved(&mut self, fullname: &str, address: &str, port: u16)
        requires
            old(self).wf(),
        ensures
            final(self).wf(),
            ({
                let peer = PeerView {
                    display_name: display_name(instance_of(fullname@)),
                    address: address@,
                    port,
                };
                if old(self).names().contains(fullname@) {
                    exists|i: int|
                        0 <= i < old(self).names().len() && old(self).names()[i] == fullname@
                            && final(self).names() == old(self).names() && final(self).peers()
                            == #[trigger] old(self).peers().update(i, peer)
                } else {
                    final(self).names() == old(self).names().push(fullname@) && final(self).peers()
                        == old(self).peers().push(peer)
                }
            }),
    {
        let ghost before = *old(self);
        let peer = DiscoveredPeer {
            display_name: display_name_from_instance(instance_name(fullname).as_str()),
            address: address.to_owned(),
            port,
        };
        let n: usize = self.names.len();
        for i in 0..n
            invariant
                *self == before,
                before == *old(self),
                before.wf(),
                n == self.names@.len(),
                peer@ == (PeerView {
                    display_name: display_name(instance_of(fullname@)),
                    address: address@,
                    port,
                }),
                forall|k: int| 0 <= k < i ==> #[trigger] before.names()[k] != fullname@,
        {
            assert(before.names()[i as int] == self.names@[i as int]@);
            if text::same_text(self.names[i].as_str(), fullname) {
                let ghost p = peer@;
                self.peers.set(i, peer);
                assert(before.names()[i as int] == fullname@);
                assert(self.names() =~= before.names());
                assert(self.peers() =~= before.peers().update(i as int, p));
                return;
            }
        }
        assert(!before.names().contains(fullname@));
        let ghost p = peer@;
        self.names.push(fullname.to_owned());
        self.peers.push(peer);
        assert(self.names() =~= before.names().push(fullname@));
        assert(self.peers() =~= before.peers().push(p));
    }

    /// The hosts, in the order in which they answered first.
    pub fn into_peers(self) -> (peers: Vec<DiscoveredPeer>)
        ensures
            peers@.map_values(|p: DiscoveredPeer| p@) == self.peers(),
    {
        self.peers
    }
}

/// The instance name is what stands before the first `.`: it has none itself, and
/// the rest of the full name follows it.
pub proof fn law_instance_is_before_the_first_dot(fullname: Seq<char>)
    ensures
        ({
            let name = instance_of(fullname);
            &&& name.is_prefix_of(fullname)
            &&& !name.contains('.')
            &&& name.len() < fullname.len() ==> fullname[name.len() as int] == '.'
        }),
    decreases fullname.len(),
{
    let name = instance_of(fullname);
    if fullname.len() > 0 && fullname[0] != '.' {
        let rest = fullname.drop_first();
        law_instance_is_before_the_first_dot(rest);
        let inner = instance_of(rest);
        assert(inner == rest.subrange(0, inner.len() as int));
        assert(name =~= fullname.subrange(0, name.len() as int)) by {
            assert forall|k: int| 0 <= k < name.len() implies name[k] == fullname[k] by {
                if k > 0 {
                    assert(name[k] == inner[k - 1]);
                    assert(inner[k - 1] == rest.subrange(0, inner.len() as int)[k - 1]);
                }
            }
        }
        assert forall|k: int| 0 <= k < name.len() implies name[k] != '.' by {
            if k > 0 {
                assert(name[k] == inner[k - 1]);
                assert(inner.contains(inner[k - 1]));
            }
        }
    } else {
        assert(name =~= fullname.subrange(0, 0));
    }
}

/// A host is shown by what its advertised name adds to the service's, with spaces
/// for hyphens; any other name is shown whole.
pub proof fn law_display_names(slug: Seq<char>, other: Seq<char>)
    requires
        slug.len() > 0,
        !"frostwall-"@.is_prefix_of(other),
    ensures
        display_name("frostwall-"@ + slug) == Seq::new(
            slug.len(),
            |i: int|
                if slug[i] == '-' {
                    ' '
                } else {
                    slug[i]
                },
        ),
        display_name(other) == Seq::new(
            other.len(),
            |i: int|
                if other[i] == '-' {
                    ' '
                } else {
                    other[i]
                },
        ),
        display_name("frostwall-"@) == "frostwall-"@,
{
    let lead = "frostwall-"@;
    let s = lead + slug;
    assert(lead =~= s.subrange(0, lead.len() as int));
    assert(s.skip(lead.len() as int) =~= slug);
    assert(lead =~= lead.subrange(0, lead.len() as int));
    assert(lead.skip(lead.len() as int) =~= Seq::empty());
    assert(display_name(s) =~= Seq::new(
        slug.len(),
        |i: int|
            if slug[i] == '-' {
                ' '
            } else {
                slug[i]
            },
    ));
    assert(display_name(other) =~= Seq::new(
        other.len(),
        |i: int|
            if other[i] == '-' {
                ' '
            } else {
                other[i]
            },
    ));
}

} // verus!

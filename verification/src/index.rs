//! The per-run accumulator: the host exposure index, the open-port rows,
//! and the retained summary vulnerability list.  One traversal pass feeds
//! every document to it; the join then reads it.

use vstd::prelude::*;
use crate::errors::RunError;
use crate::model::{
    cat_lookup, cell_value, Category, Child, OtherInfo, ScanResult, VulItem, VulPort,
    VulPortModel, Vuln, VulnModel,
};
use crate::strmap::StringMap;
use crate::text::str_eq;

verus! {

/// One host's slice of the index: its IP and its exposure entries, newest
/// first.
pub struct HostEntry {
    pub ip: String,
    pub map: Vec<VulPort>,
}

/// The per-run index mapping (host IP, vulnerability id) to the exposure
/// observed there.  Newer host entries stand in front and shadow older ones
/// with the same IP, as a re-processed host replaces its earlier data.
pub struct HostIndex {
    pub hosts: Vec<HostEntry>,
}

/// First exposure entry with this vulnerability id, front to back.
pub open spec fn vp_lookup(map: Seq<VulPort>, vul_id: u32) -> Option<VulPort>
    decreases map.len(),
{
    if map.len() == 0 {
        None
    } else if map[0].vul_id == vul_id {
        Some(map[0])
    } else {
        vp_lookup(map.skip(1), vul_id)
    }
}

/// First host entry with this IP, front to back.
pub open spec fn host_map(hosts: Seq<HostEntry>, ip: Seq<char>) -> Option<Seq<VulPort>>
    decreases hosts.len(),
{
    if hosts.len() == 0 {
        None
    } else if hosts[0].ip@ == ip {
        Some(hosts[0].map@)
    } else {
        host_map(hosts.skip(1), ip)
    }
}

impl HostIndex {
    /// The exposure recorded for (ip, vul_id), at the model level.
    pub open spec fn spec_lookup(&self, ip: Seq<char>, vul_id: u32) -> Option<VulPortModel> {
        match host_map(self.hosts@, ip) {
            Some(m) => match vp_lookup(m, vul_id) {
                Some(p) => Some(p@),
                None => None,
            },
            None => None,
        }
    }

    /// An empty index.
    pub fn new() -> (r: HostIndex)
        ensures
            r.hosts@.len() == 0,
    {
        HostIndex { hosts: Vec::new() }
    }

    /// Records a host's exposure map, shadowing any earlier map recorded
    /// under the same IP.
    pub fn insert_host(&mut self, ip: String, map: Vec<VulPort>)
        ensures
            host_map(final(self).hosts@, ip@) == Some(map@),
            forall|q: Seq<char>|
                q != ip@ ==> #[trigger] host_map(final(self).hosts@, q) == host_map(
                    old(self).hosts@,
                    q,
                ),
    {
        let ghost old_hosts = self.hosts@;
        let entry = HostEntry { ip, map };
        self.hosts.insert(0, entry);
        proof {
            assert(self.hosts@ =~= seq![entry] + old_hosts);
            assert(self.hosts@.skip(1) =~= old_hosts);
        }
    }

    /// Looks the exposure for (ip, vul_id) up.
    pub fn lookup<'a>(&'a self, ip: &str, vul_id: u32) -> (r: Option<&'a VulPort>)
        ensures
            match r {
                Some(p) => self.spec_lookup(ip@, vul_id) == Some(p@),
                None => self.spec_lookup(ip@, vul_id) is None,
            },
    {
        let n = self.hosts.len();
        proof {
            assert(self.hosts@.skip(0) =~= self.hosts@);
        }
        let mut i: usize = 0;
        while i < n
            invariant
                n == self.hosts@.len(),
                i <= n,
                host_map(self.hosts@, ip@) == host_map(self.hosts@.skip(i as int), ip@),
            decreases n - i,
        {
            proof {
                assert(self.hosts@.skip(i as int)[0] == self.hosts@[i as int]);
                assert(self.hosts@.skip(i as int).skip(1) =~= self.hosts@.skip(i + 1));
            }
            if str_eq(self.hosts[i].ip.as_str(), ip) {
                let map = &self.hosts[i].map;
                let m = map.len();
                proof {
                    assert(map@.skip(0) =~= map@);
                    assert(host_map(self.hosts@, ip@) == Some(map@));
                }
                let mut j: usize = 0;
                while j < m
                    invariant
                        m == map@.len(),
                        j <= m,
                        host_map(self.hosts@, ip@) == Some(map@),
                        vp_lookup(map@, vul_id) == vp_lookup(map@.skip(j as int), vul_id),
                    decreases m - j,
                {
                    proof {
                        assert(map@.skip(j as int)[0] == map@[j as int]);
                        assert(map@.skip(j as int).skip(1) =~= map@.skip(j + 1));
                    }
                    if map[j].vul_id == vul_id {
                        return Some(&map[j]);
                    }
                    j += 1;
                }
                proof {
                    assert(map@.skip(m as int).len() == 0);
                }
                return None;
            }
            i += 1;
        }
        proof {
            assert(self.hosts@.skip(n as int).len() == 0);
        }
        None
    }
}

/// The host's primary IP, read from the unique host-overview category's
/// direct data unit.
pub open spec fn host_ip_of(doc: ScanResult) -> Option<Seq<char>> {
    match cat_lookup(doc.categories@, "主机概况"@) {
        Some(c) => match c.data {
            Some(du) => match du.target {
                Some(t) => Some(t@),
                None => None,
            },
            None => None,
        },
        None => None,
    }
}

/// The children of the unique host-scoped vulnerability-information
/// category.
pub open spec fn vul_children_of(doc: ScanResult) -> Option<Seq<Child>> {
    match cat_lookup(doc.categories@, "漏洞信息"@) {
        Some(c) => match c.children {
            Some(ch) => Some(ch@),
            None => None,
        },
        None => None,
    }
}

/// The tabular blocks of the unique other-information category.
pub open spec fn other_blocks_of(doc: ScanResult) -> Option<Seq<OtherInfo>> {
    match cat_lookup(doc.categories@, "其它信息"@) {
        Some(c) => match c.data {
            Some(du) => match du.other_info_data {
                Some(blocks) => Some(blocks@),
                None => None,
            },
            None => None,
        },
        None => None,
    }
}

/// The first block named as the remote-port inventory.
pub open spec fn first_port_block(blocks: Seq<OtherInfo>) -> Option<OtherInfo>
    decreases blocks.len(),
{
    if blocks.len() == 0 {
        None
    } else if blocks[0].info_name@ == "远程端口信息"@ {
        Some(blocks[0])
    } else {
        first_port_block(blocks.skip(1))
    }
}

/// The exposed-port items contributed by one child section.
pub open spec fn child_items(c: Child) -> Seq<VulItem> {
    match c.data.vul_items {
        Some(v) => v@,
        None => Seq::<VulItem>::empty(),
    }
}

/// All exposed-port items of the children, in traversal order.
pub open spec fn items_of_children(children: Seq<Child>) -> Seq<VulItem>
    decreases children.len(),
{
    if children.len() == 0 {
        Seq::<VulItem>::empty()
    } else {
        child_items(children[0]) + items_of_children(children.skip(1))
    }
}

/// Whether the item lists this vulnerability id.
pub open spec fn item_has(item: VulItem, vul_id: u32) -> bool {
    exists|k: int| 0 <= k < item.vuls@.len() && (#[trigger] item.vuls@[k]).vul_id == vul_id
}

/// The exposure entry that the item contributes for this id on this host.
/// An item without a valid port contributes an entry without one.
pub open spec fn item_entry(item: VulItem, ip: Seq<char>, vul_id: u32) -> VulPortModel {
    VulPortModel {
        ip: ip,
        vul_id: vul_id,
        port: item.port,
        protocol: item.protocol@,
        service: item.service@,
    }
}

/// The exposure recorded for this id after all items are processed in
/// order: the last item listing the id wins.
pub open spec fn exposure_in_items(items: Seq<VulItem>, ip: Seq<char>, vul_id: u32) -> Option<
    VulPortModel,
>
    decreases items.len(),
{
    if items.len() == 0 {
        None
    } else if item_has(items.last(), vul_id) {
        Some(item_entry(items.last(), ip, vul_id))
    } else {
        exposure_in_items(items.drop_last(), ip, vul_id)
    }
}


/// The model value of the first matching exposure entry.
pub open spec fn vp_lookup_model(m: Seq<VulPort>, vul_id: u32) -> Option<VulPortModel> {
    match vp_lookup(m, vul_id) {
        Some(p) => Some(p@),
        None => None,
    }
}

proof fn lemma_items_children_snoc(children: Seq<Child>, c: Child)
    ensures
        items_of_children(children.push(c)) == items_of_children(children) + child_items(c),
    decreases children.len(),
{
    if children.len() == 0 {
        assert(children.push(c)[0] == c);
        assert(children.push(c).skip(1) =~= Seq::<Child>::empty());
        assert(items_of_children(Seq::<Child>::empty()) == Seq::<VulItem>::empty());
        assert(items_of_children(children.push(c)) =~= items_of_children(children) + child_items(
            c,
        ));
    } else {
        assert(children.push(c)[0] == children[0]);
        assert(children.push(c).skip(1) =~= children.skip(1).push(c));
        lemma_items_children_snoc(children.skip(1), c);
        assert((child_items(children[0]) + (items_of_children(children.skip(1)) + child_items(c)))
            =~= ((child_items(children[0]) + items_of_children(children.skip(1))) + child_items(
            c,
        )));
    }
}

proof fn lemma_exposure_snoc(items: Seq<VulItem>, it: VulItem, ip: Seq<char>, vul_id: u32)
    ensures
        exposure_in_items(items.push(it), ip, vul_id) == (if item_has(it, vul_id) {
            Some(item_entry(it, ip, vul_id))
        } else {
            exposure_in_items(items, ip, vul_id)
        }),
{
    assert(items.push(it).last() == it);
    assert(items.push(it).drop_last() =~= items);
}

/// The views of a vulnerability list.
pub open spec fn vuln_views(s: Seq<Vuln>) -> Seq<VulnModel> {
    s.map_values(|v: Vuln| v@)
}

fn clone_strings(v: &Vec<String>) -> (r: Vec<String>)
    ensures
        r@ == v@,
{
    let mut r: Vec<String> = Vec::new();
    let n = v.len();
    let mut k: usize = 0;
    while k < n
        invariant
            n == v@.len(),
            k <= n,
            r@.len() == k,
            forall|t: int| 0 <= t < k ==> r@[t] == v@[t],
        decreases n - k,
    {
        r.push(v[k].clone());
        k += 1;
    }
    proof {
        assert(r@ =~= v@);
    }
    r
}

fn clone_vuln(v: &Vuln) -> (r: Vuln)
    ensures
        r@ == v@,
{
    Vuln {
        vul_id: v.vul_id,
        cve_id: v.cve_id.clone(),
        i18n_name: v.i18n_name.clone(),
        i18n_description: v.i18n_description.clone(),
        i18n_solution: v.i18n_solution.clone(),
        date_found: v.date_found.clone(),
        date_recorded: v.date_recorded.clone(),
        target: clone_strings(&v.target),
        vuln_level: v.vuln_level.clone(),
    }
}

/// Whether `m` is the column-to-value mapping of `row`, tagged in front
/// with the host's IP under the fixed key.
pub open spec fn port_row_ok(info: OtherInfo, ip: Seq<char>, row: Seq<String>, m: StringMap) -> bool {
    &&& m.pairs@.len() == info.column_names@.len() + 1
    &&& m.pairs@[0].0@ == "IP"@
    &&& m.pairs@[0].1@ == ip
    &&& forall|j: int|
        0 <= j < info.column_names@.len() ==> (#[trigger] m.pairs@[j + 1]).0@
            == info.column_names@[j]@ && m.pairs@[j + 1].1@ == cell_value(
            info.column_names@,
            row,
            j,
        )
}

/// How the index looks after one host document was processed under `ip`.
pub open spec fn index_after_host(
    old_idx: HostIndex,
    new_idx: HostIndex,
    doc: ScanResult,
    ip: Seq<char>,
) -> bool {
    match vul_children_of(doc) {
        Some(children) => {
            &&& forall|id: u32| #[trigger]
                new_idx.spec_lookup(ip, id) == exposure_in_items(
                    items_of_children(children),
                    ip,
                    id,
                )
            &&& forall|q: Seq<char>, id: u32|
                q != ip ==> #[trigger] new_idx.spec_lookup(q, id) == old_idx.spec_lookup(q, id)
        },
        None => new_idx == old_idx,
    }
}

/// How the port rows look after one host document was processed under `ip`.
pub open spec fn ports_after_host(
    old_ports: Seq<StringMap>,
    new_ports: Seq<StringMap>,
    doc: ScanResult,
    ip: Seq<char>,
) -> bool {
    match other_blocks_of(doc) {
        Some(blocks) => match first_port_block(blocks) {
            Some(info) => {
                &&& new_ports.len() == old_ports.len() + info.content@.len()
                &&& new_ports.take(old_ports.len() as int) == old_ports
                &&& forall|t: int|
                    0 <= t < info.content@.len() ==> port_row_ok(
                        info,
                        ip,
                        info.content@[t]@,
                        #[trigger] new_ports[old_ports.len() + t],
                    )
            },
            None => new_ports == old_ports,
        },
        None => new_ports == old_ports,
    }
}

fn find_port_block(blocks: &Vec<OtherInfo>) -> (r: Option<usize>)
    ensures
        match r {
            Some(i) => i < blocks@.len() && first_port_block(blocks@) == Some(blocks@[i as int]),
            None => first_port_block(blocks@) is None,
        },
{
    let n = blocks.len();
    proof {
        assert(blocks@.skip(0) =~= blocks@);
    }
    let mut i: usize = 0;
    while i < n
        invariant
            n == blocks@.len(),
            i <= n,
            first_port_block(blocks@) == first_port_block(blocks@.skip(i as int)),
        decreases n - i,
    {
        proof {
            assert(blocks@.skip(i as int)[0] == blocks@[i as int]);
            assert(blocks@.skip(i as int).skip(1) =~= blocks@.skip(i + 1));
        }
        if str_eq(blocks[i].info_name.as_str(), "远程端口信息") {
            return Some(i);
        }
        i += 1;
    }
    proof {
        assert(blocks@.skip(n as int).len() == 0);
    }
    None
}

/// The summary-scoped vulnerability-information category of a document.
pub open spec fn summary_category_of(doc: ScanResult) -> Option<Category> {
    cat_lookup(doc.categories@, "漏洞信息"@)
}

/// The summary vulnerability list: the statistics field of the first child
/// of the unique vulnerability-information category.
pub open spec fn summary_vulns_of(doc: ScanResult) -> Option<Seq<Vuln>> {
    match summary_category_of(doc) {
        Some(c) => match c.children {
            Some(ch) => if ch@.len() >= 1 {
                match ch@[0].data.vulns_info {
                    Some(vi) => Some(vi.vuln_distribution.vuln_list@),
                    None => None,
                }
            } else {
                None
            },
            None => None,
        },
        None => None,
    }
}

/// The list under an optional summary, empty when there is none.
pub open spec fn opt_vulns(o: Option<Seq<Vuln>>) -> Seq<Vuln> {
    match o {
        Some(v) => v,
        None => Seq::<Vuln>::empty(),
    }
}

/// One run's accumulated state: the host exposure index, the open-port
/// rows, and the retained summary vulnerability list.
pub struct RunState {
    pub index: HostIndex,
    pub ports: Vec<StringMap>,
    pub vuln_list: Vec<Vuln>,
}

impl RunState {
    /// A fresh run with nothing accumulated.
    pub fn new() -> (r: RunState)
        ensures
            r.index.hosts@.len() == 0,
            r.ports@.len() == 0,
            r.vuln_list@.len() == 0,
    {
        RunState { index: HostIndex::new(), ports: Vec::new(), vuln_list: Vec::new() }
    }

    /// Feeds one host-detail document to the accumulator.  A document
    /// without a host IP contributes nothing; otherwise its exposure
    /// entries replace the index's data for that IP, and its remote-port
    /// inventory rows, tagged with the IP, are appended to the port rows.
    pub fn process_host_document(&mut self, doc: &ScanResult)
        ensures
            final(self).vuln_list == old(self).vuln_list,
            match host_ip_of(*doc) {
                Some(ip) => index_after_host(old(self).index, final(self).index, *doc, ip)
                    && ports_after_host(old(self).ports@, final(self).ports@, *doc, ip),
                None => final(self).index == old(self).index && final(self).ports == old(
                    self,
                ).ports,
            },
    {
        let cat = doc.get_category_by_name("主机概况");
        let ip: &String = match cat {
            Some(c) => match &c.data {
                Some(du) => match &du.target {
                    Some(t) => t,
                    None => {
                        return ;
                    },
                },
                None => {
                    return ;
                },
            },
            None => {
                return ;
            },
        };
        proof {
            assert(host_ip_of(*doc) == Some(ip@));
        }
        if let Some(c) = doc.get_category_by_name("漏洞信息") {
            if let Some(children) = &c.children {
                proof {
                    assert(vul_children_of(*doc) == Some(children@));
                }
                let nc = children.len();
                let mut port_map: Vec<VulPort> = Vec::new();
                proof {
                    assert(children@.take(0) =~= Seq::<Child>::empty());
                }
                let mut ci: usize = 0;
                while ci < nc
                    invariant
                        nc == children@.len(),
                        ci <= nc,
                        forall|id: u32| #[trigger]
                            vp_lookup_model(port_map@, id) == exposure_in_items(
                                items_of_children(children@.take(ci as int)),
                                ip@,
                                id,
                            ),
                    decreases nc - ci,
                {
                    let ghost done = items_of_children(children@.take(ci as int));
                    if let Some(items) = &children[ci].data.vul_items {
                        let ni = items.len();
                        proof {
                            assert(items@.take(0) =~= Seq::<VulItem>::empty());
                            assert(done + items@.take(0) =~= done);
                        }
                        let mut ii: usize = 0;
                        while ii < ni
                            invariant
                                ni == items@.len(),
                                ii <= ni,
                                forall|id: u32| #[trigger]
                                    vp_lookup_model(port_map@, id) == exposure_in_items(
                                        done + items@.take(ii as int),
                                        ip@,
                                        id,
                                    ),
                            decreases ni - ii,
                        {
                            let item = &items[ii];
                            let nv = item.vuls.len();
                            let ghost base = done + items@.take(ii as int);
                            let mut vi: usize = 0;
                            while vi < nv
                                invariant
                                    nv == item.vuls@.len(),
                                    vi <= nv,
                                    forall|id: u32|
                                        (exists|t: int|
                                            0 <= t < vi && (#[trigger] item.vuls@[t]).vul_id == id)
                                            ==> vp_lookup_model(port_map@, id) == Some(
                                            item_entry(*item, ip@, id),
                                        ),
                                    forall|id: u32|
                                        !(exists|t: int|
                                            0 <= t < vi && (#[trigger] item.vuls@[t]).vul_id == id)
                                            ==> #[trigger] vp_lookup_model(port_map@, id)
                                            == exposure_in_items(base, ip@, id),
                                decreases nv - vi,
                            {
                                let vp = VulPort {
                                    ip: ip.clone(),
                                    vul_id: item.vuls[vi].vul_id,
                                    port: item.port,
                                    protocol: item.protocol.clone(),
                                    service: item.service.clone(),
                                };
                                let ghost pm0 = port_map@;
                                port_map.insert(0, vp);
                                proof {
                                    assert(port_map@ =~= seq![vp] + pm0);
                                    assert(port_map@[0] == vp);
                                    assert(port_map@.skip(1) =~= pm0);
                                    assert(vp.vul_id == item.vuls@[vi as int].vul_id);
                                    assert(vp@ == item_entry(*item, ip@, vp.vul_id));
                                    assert forall|id: u32|
                                        (exists|t: int|
                                            0 <= t < vi + 1 && (#[trigger] item.vuls@[t]).vul_id
                                                == id) implies vp_lookup_model(port_map@, id)
                                        == Some(item_entry(*item, ip@, id)) by {
                                        if id == vp.vul_id {
                                            assert(vp_lookup(port_map@, id) == Some(vp));
                                        } else {
                                            let t = choose|t: int|
                                                0 <= t < vi + 1
                                                    && (#[trigger] item.vuls@[t]).vul_id == id;
                                            assert(t < vi);
                                            assert(vp_lookup(port_map@, id) == vp_lookup(pm0, id));
                                            assert(vp_lookup_model(port_map@, id)
                                                == vp_lookup_model(pm0, id));
                                            assert(vp_lookup_model(pm0, id) == Some(
                                                item_entry(*item, ip@, id),
                                            ));
                                        }
                                    }
                                    assert forall|id: u32|
                                        !(exists|t: int|
                                            0 <= t < vi + 1 && (#[trigger] item.vuls@[t]).vul_id
                                                == id) implies #[trigger] vp_lookup_model(
                                        port_map@,
                                        id,
                                    ) == exposure_in_items(base, ip@, id) by {
                                        assert(item.vuls@[vi as int].vul_id == vp.vul_id);
                                        assert(id != vp.vul_id);
                                        assert(vp_lookup(port_map@, id) == vp_lookup(pm0, id));
                                        assert(vp_lookup_model(port_map@, id) == vp_lookup_model(
                                            pm0,
                                            id,
                                        ));
                                        assert(!(exists|t: int|
                                            0 <= t < vi && (#[trigger] item.vuls@[t]).vul_id
                                                == id));
                                        assert(vp_lookup_model(pm0, id) == exposure_in_items(
                                            base,
                                            ip@,
                                            id,
                                        ));
                                    }
                                }
                                vi += 1;
                            }
                            proof {
                                assert forall|id: u32| #[trigger]
                                    vp_lookup_model(port_map@, id) == exposure_in_items(
                                        done + items@.take(ii + 1),
                                        ip@,
                                        id,
                                    ) by {
                                    lemma_exposure_snoc(base, *item, ip@, id);
                                    assert(done + items@.take(ii + 1) =~= base.push(*item));
                                    if item_has(*item, id) {
                                        assert(exists|t: int|
                                            0 <= t < nv && (#[trigger] item.vuls@[t]).vul_id
                                                == id);
                                    }
                                }
                            }
                            ii += 1;
                        }
                        proof {
                            assert(items@.take(ni as int) =~= items@);
                            assert(child_items(children@[ci as int]) == items@);
                            assert(children@.take(ci + 1) =~= children@.take(ci as int).push(
                                children@[ci as int],
                            ));
                            lemma_items_children_snoc(
                                children@.take(ci as int),
                                children@[ci as int],
                            );
                        }
                    } else {
                        proof {
                            assert(child_items(children@[ci as int]) =~= Seq::<VulItem>::empty());
                            assert(children@.take(ci + 1) =~= children@.take(ci as int).push(
                                children@[ci as int],
                            ));
                            lemma_items_children_snoc(
                                children@.take(ci as int),
                                children@[ci as int],
                            );
                            assert(done + Seq::<VulItem>::empty() =~= done);
                        }
                    }
                    ci += 1;
                }
                proof {
                    assert(children@.take(nc as int) =~= children@);
                }
                let ghost pm_final = port_map@;
                self.index.insert_host(ip.clone(), port_map);
                proof {
                    assert(host_map(self.index.hosts@, ip@) == Some(pm_final));
                    assert forall|id: u32| #[trigger]
                        self.index.spec_lookup(ip@, id) == exposure_in_items(
                            items_of_children(children@),
                            ip@,
                            id,
                        ) by {
                        assert(vp_lookup_model(pm_final, id) == exposure_in_items(
                            items_of_children(children@),
                            ip@,
                            id,
                        ));
                    }
                    assert forall|q: Seq<char>, id: u32| q != ip@ implies #[trigger]
                        self.index.spec_lookup(q, id) == old(self).index.spec_lookup(q, id) by {
                        assert(host_map(self.index.hosts@, q) == host_map(
                            old(self).index.hosts@,
                            q,
                        ));
                    }
                }
            }
        }
        let ghost mid_index = self.index;
        let ghost mid_ports = self.ports@;
        proof {
            assert(mid_ports =~= old(self).ports@);
            assert(index_after_host(old(self).index, mid_index, *doc, ip@));
        }
        if let Some(c2) = doc.get_category_by_name("其它信息") {
            if let Some(du2) = &c2.data {
                if let Some(blocks) = &du2.other_info_data {
                    proof {
                        assert(other_blocks_of(*doc) == Some(blocks@));
                    }
                    if let Some(fi) = find_port_block(blocks) {
                        let info = &blocks[fi];
                        let mut maps = info.calculate_content_maps();
                        let ghost maps0 = maps@;
                        let ghost n_rows = info.content@.len();
                        let ghost base_len = self.ports@.len() as int;
                        while maps.len() > 0
                            invariant
                                self.index == mid_index,
                                self.vuln_list == old(self).vuln_list,
                                maps0.len() == n_rows,
                                maps@.len() <= n_rows,
                                0 <= base_len <= self.ports@.len(),
                                maps@ =~= maps0.skip(n_rows - maps@.len()),
                                forall|t: int|
                                    0 <= t < n_rows ==> crate::model::row_map_ok(
                                        info.column_names@,
                                        info.content@[t]@,
                                        #[trigger] maps0[t],
                                    ),
                                self.ports@.len() == base_len + (n_rows - maps@.len()),
                                self.ports@.take(base_len) =~= mid_ports,
                                forall|t: int|
                                    0 <= t < n_rows - maps@.len() ==> port_row_ok(
                                        *info,
                                        ip@,
                                        info.content@[t]@,
                                        #[trigger] self.ports@[base_len + t],
                                    ),
                            decreases maps@.len(),
                        {
                            let ghost done_rows = n_rows - maps@.len();
                            let ghost m_pre = maps@;
                            let mut m = maps.remove(0);
                            proof {
                                assert(m == maps0[done_rows]);
                                assert(maps@ =~= m_pre.skip(1));
                                assert(maps@ =~= maps0.skip(n_rows - maps@.len()));
                            }
                            let ghost pairs0 = m.pairs@;
                            m.insert("IP".to_owned(), ip.clone());
                            proof {
                                assert(m.pairs@[0].0@ == "IP"@);
                                assert(m.pairs@[0].1@ == ip@);
                                assert forall|j: int|
                                    0 <= j < info.column_names@.len() implies (
                                #[trigger] m.pairs@[j + 1]).0@ == info.column_names@[j]@
                                    && m.pairs@[j + 1].1@ == cell_value(
                                    info.column_names@,
                                    info.content@[done_rows]@,
                                    j,
                                ) by {
                                    assert(m.pairs@[j + 1] == pairs0[j]);
                                }
                                assert(port_row_ok(*info, ip@, info.content@[done_rows]@, m));
                            }
                            let ghost ports_pre = self.ports@;
                            self.ports.push(m);
                            proof {
                                assert(self.ports@.take(base_len) =~= ports_pre.take(base_len));
                                assert(self.ports@[base_len + done_rows] == m);
                                assert forall|t: int| 0 <= t < done_rows implies #[trigger] self.ports@[
                                    base_len + t] == ports_pre[base_len + t] by {
                                    assert(self.ports@[base_len + t] == ports_pre[base_len + t]);
                                }
                            }
                        }
                        proof {
                            assert(maps0.skip(n_rows - 0) =~= Seq::<StringMap>::empty());
                            assert(self.ports@.take(base_len) =~= mid_ports);
                            assert(self.ports@.take(base_len) == old(self).ports@);
                            assert(ports_after_host(old(self).ports@, self.ports@, *doc, ip@));
                            assert(index_after_host(old(self).index, self.index, *doc, ip@));
                        }
                        return ;
                    }
                }
            }
        }
        proof {
            assert(self.index == mid_index);
            assert(index_after_host(old(self).index, self.index, *doc, ip@));
            assert(ports_after_host(old(self).ports@, self.ports@, *doc, ip@));
        }
    }

    /// Feeds the summary document to the accumulator: its vulnerability
    /// list replaces the retained one.  Failure to find the unique
    /// vulnerability-information category, or the statistics field under
    /// its first child, is fatal and leaves the state unchanged.
    pub fn process_summary_document(&mut self, doc: &ScanResult) -> (r: Result<(), RunError>)
        ensures
            final(self).index == old(self).index,
            final(self).ports == old(self).ports,
            match r {
                Ok(()) => summary_vulns_of(*doc) is Some && vuln_views(final(self).vuln_list@)
                    == vuln_views(opt_vulns(summary_vulns_of(*doc))),
                Err(e) => final(self).vuln_list == old(self).vuln_list && ((e
                    == RunError::SummarySectionMissing && summary_category_of(*doc) is None) || (e
                    == RunError::SummaryFieldMissing && summary_category_of(*doc) is Some
                    && summary_vulns_of(*doc) is None)),
            },
    {
        let cat = match doc.get_category_by_name("漏洞信息") {
            Some(c) => c,
            None => {
                return Err(RunError::SummarySectionMissing);
            },
        };
        let vlist: &Vec<Vuln> = match &cat.children {
            Some(ch) => {
                if ch.len() >= 1 {
                    match &ch[0].data.vulns_info {
                        Some(vi) => &vi.vuln_distribution.vuln_list,
                        None => {
                            return Err(RunError::SummaryFieldMissing);
                        },
                    }
                } else {
                    return Err(RunError::SummaryFieldMissing);
                }
            },
            None => {
                return Err(RunError::SummaryFieldMissing);
            },
        };
        proof {
            assert(summary_vulns_of(*doc) == Some(vlist@));
        }
        let n = vlist.len();
        let mut out: Vec<Vuln> = Vec::new();
        let mut k: usize = 0;
        while k < n
            invariant
                n == vlist@.len(),
                k <= n,
                out@.len() == k,
                forall|t: int| 0 <= t < k ==> (#[trigger] out@[t])@ == vlist@[t]@,
                self.index == old(self).index,
                self.ports == old(self).ports,
                self.vuln_list == old(self).vuln_list,
            decreases n - k,
        {
            out.push(clone_vuln(&vlist[k]));
            k += 1;
        }
        proof {
            assert(vuln_views(out@) =~= vuln_views(vlist@));
        }
        self.vuln_list = out;
        Ok(())
    }
}

} // verus!

//! The join: every summarized vulnerability is resolved, per target IP,
//! against the host exposure index, yielding one flattened output row per
//! (vulnerability, target) pair, in summary order.

use vstd::prelude::*;
use crate::errors::RunError;
use crate::index::{HostIndex, RunState};
use crate::model::{ExcelRecord, RecordModel, Vuln, VulPortModel};

verus! {

/// The model of the exposure under an optional lookup result; a filler
/// when there is none (the join never emits a row from that case).
pub open spec fn opt_exposure(o: Option<VulPortModel>) -> VulPortModel {
    match o {
        Some(p) => p,
        None => VulPortModel {
            ip: Seq::<char>::empty(),
            vul_id: 0,
            port: None,
            protocol: Seq::<char>::empty(),
            service: Seq::<char>::empty(),
        },
    }
}

/// The output row for one vulnerability on one target, given the exposure
/// found in the index.
pub open spec fn row_model(v: Vuln, t: Seq<char>, p: VulPortModel, sys: Seq<char>) -> RecordModel {
    RecordModel {
        ip: t,
        system_name: sys,
        port: p.port,
        protocol: p.protocol,
        service: p.service,
        i18n_name: v.i18n_name@,
        vuln_level: v.vuln_level@,
        i18n_solution: v.i18n_solution@,
        i18n_description: v.i18n_description@,
        cve_id: v.cve_id@,
    }
}

/// Whether every target of the vulnerability resolves in the index.
pub open spec fn vuln_resolvable(idx: HostIndex, v: Vuln) -> bool {
    forall|j: int|
        0 <= j < v.target@.len() ==> idx.spec_lookup((#[trigger] v.target@[j])@, v.vul_id) is Some
}

/// Whether every summarized vulnerability resolves in the index.
pub open spec fn all_resolvable(idx: HostIndex, vulns: Seq<Vuln>) -> bool {
    forall|i: int| 0 <= i < vulns.len() ==> vuln_resolvable(idx, #[trigger] vulns[i])
}

/// The rows of one vulnerability over (a suffix of) its targets, in order.
pub open spec fn vuln_rows(idx: HostIndex, v: Vuln, targets: Seq<String>, sys: Seq<char>) -> Seq<
    RecordModel,
>
    decreases targets.len(),
{
    if targets.len() == 0 {
        Seq::<RecordModel>::empty()
    } else {
        seq![
            row_model(v, targets[0]@, opt_exposure(idx.spec_lookup(targets[0]@, v.vul_id)), sys),
        ] + vuln_rows(idx, v, targets.skip(1), sys)
    }
}

/// All rows of the join, in summary order, targets in their given order.
pub open spec fn join_rows(idx: HostIndex, vulns: Seq<Vuln>, sys: Seq<char>) -> Seq<RecordModel>
    decreases vulns.len(),
{
    if vulns.len() == 0 {
        Seq::<RecordModel>::empty()
    } else {
        vuln_rows(idx, vulns[0], vulns[0].target@, sys) + join_rows(idx, vulns.skip(1), sys)
    }
}

/// The views of a record list.
pub open spec fn record_views(s: Seq<ExcelRecord>) -> Seq<RecordModel> {
    s.map_values(|r: ExcelRecord| r@)
}

proof fn lemma_vuln_rows_snoc(idx: HostIndex, v: Vuln, targets: Seq<String>, j: int, sys: Seq<char>)
    requires
        0 <= j < targets.len(),
    ensures
        vuln_rows(idx, v, targets.take(j + 1), sys) == vuln_rows(idx, v, targets.take(j), sys)
            + seq![
            row_model(
                v,
                targets[j]@,
                opt_exposure(idx.spec_lookup(targets[j]@, v.vul_id)),
                sys,
            ),
        ],
    decreases j,
{
    let row = seq![
        row_model(v, targets[j]@, opt_exposure(idx.spec_lookup(targets[j]@, v.vul_id)), sys),
    ];
    if j == 0 {
        assert(targets.take(0).len() == 0);
        assert(vuln_rows(idx, v, targets.take(0), sys) == Seq::<RecordModel>::empty());
        let t1 = targets.take(1);
        assert(t1.len() == 1);
        assert(t1[0] == targets[0]);
        assert(t1.skip(1) =~= Seq::<String>::empty());
        assert(vuln_rows(idx, v, t1.skip(1), sys) == Seq::<RecordModel>::empty());
        assert(vuln_rows(idx, v, t1, sys) == seq![
            row_model(v, t1[0]@, opt_exposure(idx.spec_lookup(t1[0]@, v.vul_id)), sys),
        ] + vuln_rows(idx, v, t1.skip(1), sys));
        assert(vuln_rows(idx, v, t1, sys) =~= row);
        assert(vuln_rows(idx, v, targets.take(0), sys) + row =~= row);
    } else {
        assert(targets.take(j + 1)[0] == targets[0]);
        assert(targets.take(j)[0] == targets[0]);
        assert(targets.take(j + 1).skip(1) =~= targets.skip(1).take(j));
        assert(targets.take(j).skip(1) =~= targets.skip(1).take(j - 1));
        assert(targets.skip(1)[j - 1] == targets[j]);
        lemma_vuln_rows_snoc(idx, v, targets.skip(1), j - 1, sys);
        assert(vuln_rows(idx, v, targets.take(j + 1), sys) =~= vuln_rows(
            idx,
            v,
            targets.take(j),
            sys,
        ) + row);
    }
}

proof fn lemma_join_rows_snoc(idx: HostIndex, vulns: Seq<Vuln>, i: int, sys: Seq<char>)
    requires
        0 <= i < vulns.len(),
    ensures
        join_rows(idx, vulns.take(i + 1), sys) == join_rows(idx, vulns.take(i), sys) + vuln_rows(
            idx,
            vulns[i],
            vulns[i].target@,
            sys,
        ),
    decreases i,
{
    let rows = vuln_rows(idx, vulns[i], vulns[i].target@, sys);
    if i == 0 {
        assert(vulns.take(0).len() == 0);
        assert(join_rows(idx, vulns.take(0), sys) == Seq::<RecordModel>::empty());
        let v1 = vulns.take(1);
        assert(v1.len() == 1);
        assert(v1[0] == vulns[0]);
        assert(v1.skip(1) =~= Seq::<Vuln>::empty());
        assert(join_rows(idx, v1.skip(1), sys) == Seq::<RecordModel>::empty());
        assert(join_rows(idx, v1, sys) == vuln_rows(idx, v1[0], v1[0].target@, sys) + join_rows(
            idx,
            v1.skip(1),
            sys,
        ));
        assert(join_rows(idx, v1, sys) =~= rows);
        assert(join_rows(idx, vulns.take(0), sys) + rows =~= rows);
    } else {
        assert(vulns.take(i + 1)[0] == vulns[0]);
        assert(vulns.take(i)[0] == vulns[0]);
        assert(vulns.take(i + 1).skip(1) =~= vulns.skip(1).take(i));
        assert(vulns.take(i).skip(1) =~= vulns.skip(1).take(i - 1));
        assert(vulns.skip(1)[i - 1] == vulns[i]);
        lemma_join_rows_snoc(idx, vulns.skip(1), i - 1, sys);
        assert(join_rows(idx, vulns.take(i + 1), sys) =~= join_rows(idx, vulns.take(i), sys)
            + rows);
    }
}

impl RunState {
    /// Joins the retained summary vulnerability list against the host
    /// exposure index: one output row per (vulnerability, target IP) pair,
    /// in summary order.  A target without an exposure entry for its
    /// vulnerability id is a fatal join failure and yields no rows.
    pub fn join_records(&self, system_name: &str) -> (r: Result<Vec<ExcelRecord>, RunError>)
        ensures
            match r {
                Ok(recs) => all_resolvable(self.index, self.vuln_list@) && record_views(recs@)
                    == join_rows(self.index, self.vuln_list@, system_name@),
                Err(e) => e == RunError::ExposureMissing && !all_resolvable(
                    self.index,
                    self.vuln_list@,
                ),
            },
    {
        let vulns = &self.vuln_list;
        let n = vulns.len();
        let mut recs: Vec<ExcelRecord> = Vec::new();
        proof {
            assert(vulns@.take(0).len() == 0);
            assert(record_views(recs@) =~= join_rows(self.index, vulns@.take(0), system_name@));
        }
        let mut i: usize = 0;
        while i < n
            invariant
                n == vulns@.len(),
                i <= n,
                vulns == &self.vuln_list,
                forall|t: int| 0 <= t < i ==> vuln_resolvable(self.index, #[trigger] vulns@[t]),
                record_views(recs@) == join_rows(self.index, vulns@.take(i as int), system_name@),
            decreases n - i,
        {
            let v = &vulns[i];
            let m = v.target.len();
            proof {
                assert(v.target@.take(0).len() == 0);
                assert(record_views(recs@) + vuln_rows(self.index, *v, v.target@.take(0), system_name@)
                    =~= record_views(recs@));
            }
            let mut j: usize = 0;
            while j < m
                invariant
                    n == vulns@.len(),
                    i < n,
                    vulns == &self.vuln_list,
                    v == &vulns@[i as int],
                    m == v.target@.len(),
                    j <= m,
                    forall|t: int| 0 <= t < i ==> vuln_resolvable(self.index, #[trigger] vulns@[t]),
                    forall|t: int|
                        0 <= t < j ==> self.index.spec_lookup(
                            (#[trigger] v.target@[t])@,
                            v.vul_id,
                        ) is Some,
                    record_views(recs@) == join_rows(self.index, vulns@.take(i as int), system_name@)
                        + vuln_rows(self.index, *v, v.target@.take(j as int), system_name@),
                decreases m - j,
            {
                let target = &v.target[j];
                match self.index.lookup(target.as_str(), v.vul_id) {
                    Some(p) => {
                        let rec = ExcelRecord {
                            ip: target.clone(),
                            system_name: system_name.to_owned(),
                            port: p.port,
                            protocol: p.protocol.clone(),
                            service: p.service.clone(),
                            i18n_name: v.i18n_name.clone(),
                            vuln_level: v.vuln_level.clone(),
                            i18n_solution: v.i18n_solution.clone(),
                            i18n_description: v.i18n_description.clone(),
                            cve_id: v.cve_id.clone(),
                        };
                        proof {
                            lemma_vuln_rows_snoc(self.index, *v, v.target@, j as int, system_name@);
                            assert(rec@ == row_model(
                                *v,
                                v.target@[j as int]@,
                                opt_exposure(self.index.spec_lookup(v.target@[j as int]@, v.vul_id)),
                                system_name@,
                            ));
                            assert(record_views(recs@.push(rec)) =~= record_views(recs@) + seq![
                                rec@,
                            ]);
                        }
                        recs.push(rec);
                    },
                    None => {
                        proof {
                            assert(!vuln_resolvable(self.index, vulns@[i as int]));
                            assert(!all_resolvable(self.index, self.vuln_list@));
                        }
                        return Err(RunError::ExposureMissing);
                    },
                }
                j += 1;
            }
            proof {
                assert(v.target@.take(m as int) =~= v.target@);
                lemma_join_rows_snoc(self.index, vulns@, i as int, system_name@);
            }
            i += 1;
        }
        proof {
            assert(vulns@.take(n as int) =~= vulns@);
        }
        Ok(recs)
    }
}


} // verus!

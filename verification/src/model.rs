//! The typed document model of one decoded report payload, with the
//! field normalizations that are applied while a document is built.

use vstd::prelude::*;
use vstd::string::*;
use crate::text::{
    join_nl, join_paragraphs, lemma_replace_absent, occurs_in, replace_all, replace_spec,
    split_char, split_on, str_eq, trim, trim_spec, views_of,
};
use crate::strmap::StringMap;

verus! {

/// Root of one decoded payload.
pub struct ScanResult {
    pub categories: Vec<Category>,
    pub task_type: u8,
    pub create_time: String,
}

/// A titled section of a document.
pub struct Category {
    pub title: String,
    pub children: Option<Vec<Child>>,
    pub data: Option<DataUnit>,
}

/// A child section wrapping one data unit.
pub struct Child {
    pub data: DataUnit,
}

/// Union of the possible section payloads; which fields are present is a
/// convention of the enclosing category's title.
pub struct DataUnit {
    pub vulns_info: Option<VulnsInfo>,
    pub vul_items: Option<Vec<VulItem>>,
    pub target: Option<String>,
    pub other_info_data: Option<Vec<OtherInfo>>,
}

/// Summary vulnerability statistics.
pub struct VulnsInfo {
    pub vuln_distribution: VulnDistribution,
}

/// The summary's vulnerability list.
pub struct VulnDistribution {
    pub vuln_list: Vec<Vuln>,
    pub hosts_count: u32,
}

/// One summarized vulnerability, with its fields already normalized.
pub struct Vuln {
    pub vul_id: u32,
    pub cve_id: String,
    pub i18n_name: String,
    pub i18n_description: String,
    pub i18n_solution: String,
    pub date_found: String,
    pub date_recorded: String,
    pub target: Vec<String>,
    pub vuln_level: String,
}

/// One exposed-port entry of a host document.
pub struct VulItem {
    pub port: Option<u16>,
    pub service: String,
    pub protocol: String,
    pub vuls: Vec<Vul>,
}

/// A bare vulnerability identifier.
pub struct Vul {
    pub vul_id: u32,
}

/// An exposure association: a vulnerability observed on a host's port.
/// The port is absent when the scanner could not determine a valid one.
pub struct VulPort {
    pub ip: String,
    pub vul_id: u32,
    pub port: Option<u16>,
    pub protocol: String,
    pub service: String,
}

/// A named tabular block of miscellaneous host info.
pub struct OtherInfo {
    pub info_name: String,
    pub column_names: Vec<String>,
    pub content: Vec<Vec<String>>,
}

/// One flattened output row of the join.  A record whose exposure carried
/// no port keeps the port absent; the rendering sink leaves such a cell
/// blank.
#[derive(Debug)]
pub struct ExcelRecord {
    pub ip: String,
    pub system_name: String,
    pub port: Option<u16>,
    pub protocol: String,
    pub service: String,
    pub i18n_name: String,
    pub vuln_level: String,
    pub i18n_solution: String,
    pub i18n_description: String,
    pub cve_id: String,
}

/// The mathematical value of one vulnerability record.
pub ghost struct VulnModel {
    pub vul_id: u32,
    pub cve_id: Seq<char>,
    pub i18n_name: Seq<char>,
    pub i18n_description: Seq<char>,
    pub i18n_solution: Seq<char>,
    pub date_found: Seq<char>,
    pub date_recorded: Seq<char>,
    pub target: Seq<Seq<char>>,
    pub vuln_level: Seq<char>,
}

impl View for Vuln {
    type V = VulnModel;

    open spec fn view(&self) -> VulnModel {
        VulnModel {
            vul_id: self.vul_id,
            cve_id: self.cve_id@,
            i18n_name: self.i18n_name@,
            i18n_description: self.i18n_description@,
            i18n_solution: self.i18n_solution@,
            date_found: self.date_found@,
            date_recorded: self.date_recorded@,
            target: views_of(self.target@),
            vuln_level: self.vuln_level@,
        }
    }
}

/// The mathematical value of one exposure association.
pub ghost struct VulPortModel {
    pub ip: Seq<char>,
    pub vul_id: u32,
    pub port: Option<u16>,
    pub protocol: Seq<char>,
    pub service: Seq<char>,
}

impl View for VulPort {
    type V = VulPortModel;

    open spec fn view(&self) -> VulPortModel {
        VulPortModel {
            ip: self.ip@,
            vul_id: self.vul_id,
            port: self.port,
            protocol: self.protocol@,
            service: self.service@,
        }
    }
}

/// The mathematical value of one output row.
pub ghost struct RecordModel {
    pub ip: Seq<char>,
    pub system_name: Seq<char>,
    pub port: Option<u16>,
    pub protocol: Seq<char>,
    pub service: Seq<char>,
    pub i18n_name: Seq<char>,
    pub vuln_level: Seq<char>,
    pub i18n_solution: Seq<char>,
    pub i18n_description: Seq<char>,
    pub cve_id: Seq<char>,
}

impl View for ExcelRecord {
    type V = RecordModel;

    open spec fn view(&self) -> RecordModel {
        RecordModel {
            ip: self.ip@,
            system_name: self.system_name@,
            port: self.port,
            protocol: self.protocol@,
            service: self.service@,
            i18n_name: self.i18n_name@,
            vuln_level: self.vuln_level@,
            i18n_solution: self.i18n_solution@,
            i18n_description: self.i18n_description@,
            cve_id: self.cve_id@,
        }
    }
}

/// An empty CVE id is replaced by the fixed "no CVE assigned" sentinel;
/// anything else passes through unchanged.
pub open spec fn cve_normalized(s: Seq<char>) -> Seq<char> {
    if s.len() == 0 {
        "漏洞暂无CVE编号"@
    } else {
        s
    }
}

/// Normalizes a CVE identifier.
pub fn normalize_cve(s: String) -> (r: String)
    ensures
        r@ == cve_normalized(s@),
{
    if s.as_str().unicode_len() == 0 {
        "漏洞暂无CVE编号".to_owned()
    } else {
        s
    }
}

/// The three known severity tokens replaced by their localized glyphs, in
/// the order high, middle, low; everything else is left as it stands.
pub open spec fn severity_normalized(s: Seq<char>) -> Seq<char> {
    replace_spec(
        replace_spec(replace_spec(s, "high"@, "高"@), "middle"@, "中"@),
        "low"@,
        "低"@,
    )
}

/// Normalizes a severity token.
pub fn normalize_severity(s: &str) -> (r: String)
    ensures
        r@ == severity_normalized(s@),
{
    proof {
        reveal_strlit("high");
        reveal_strlit("middle");
        reveal_strlit("low");
    }
    let a = replace_all(s, "high", "高");
    let b = replace_all(a.as_str(), "middle", "中");
    replace_all(b.as_str(), "low", "低")
}

/// A severity string in which none of the three tokens occurs is left
/// unchanged by the normalization.
pub proof fn lemma_severity_unrecognized(s: Seq<char>)
    requires
        !occurs_in(s, "high"@),
        !occurs_in(s, "middle"@),
        !occurs_in(s, "low"@),
    ensures
        severity_normalized(s) == s,
{
    lemma_replace_absent(s, "high"@, "高"@);
    lemma_replace_absent(s, "middle"@, "中"@);
    lemma_replace_absent(s, "low"@, "低"@);
}

/// The delimited target string split at every `;`, each piece trimmed.
/// An empty input yields one empty target.
pub open spec fn targets_normalized(s: Seq<char>) -> Seq<Seq<char>> {
    split_char(s, ';').map_values(|p: Seq<char>| trim_spec(p))
}

/// Normalizes the delimited target string of a vulnerability.
pub fn normalize_targets(s: &str) -> (r: Vec<String>)
    ensures
        views_of(r@) == targets_normalized(s@),
{
    let parts = split_on(s, ';');
    let mut out: Vec<String> = Vec::new();
    let n = parts.len();
    let mut k: usize = 0;
    while k < n
        invariant
            n == parts@.len(),
            k <= n,
            views_of(parts@) == split_char(s@, ';'),
            out@.len() == k,
            forall|t: int| 0 <= t < k ==> (#[trigger] out@[t])@ == trim_spec(parts@[t]@),
        decreases n - k,
    {
        let piece = trim(parts[k].as_str());
        out.push(piece);
        k += 1;
    }
    proof {
        assert(views_of(out@) =~= targets_normalized(s@));
    }
    out
}

impl Vuln {
    /// Builds a vulnerability record from raw field values, applying every
    /// field normalization: CVE sentinel substitution, paragraph joining
    /// for description and remediation, target splitting and trimming, and
    /// severity glyph replacement.
    pub fn from_raw(
        vul_id: u32,
        cve_id: String,
        i18n_name: String,
        description: Vec<String>,
        solution: Vec<String>,
        date_found: String,
        date_recorded: String,
        target: String,
        vuln_level: String,
    ) -> (v: Vuln)
        ensures
            v@.vul_id == vul_id,
            v@.cve_id == cve_normalized(cve_id@),
            v@.i18n_name == i18n_name@,
            v@.i18n_description == join_nl(views_of(description@)),
            v@.i18n_solution == join_nl(views_of(solution@)),
            v@.date_found == date_found@,
            v@.date_recorded == date_recorded@,
            v@.target == targets_normalized(target@),
            v@.vuln_level == severity_normalized(vuln_level@),
    {
        let i18n_description = join_paragraphs(&description);
        let i18n_solution = join_paragraphs(&solution);
        let target = normalize_targets(target.as_str());
        let vuln_level = normalize_severity(vuln_level.as_str());
        let cve_id = normalize_cve(cve_id);
        Vuln {
            vul_id,
            cve_id,
            i18n_name,
            i18n_description,
            i18n_solution,
            date_found,
            date_recorded,
            target,
            vuln_level,
        }
    }
}

/// How many categories carry the given title.
pub open spec fn count_title(cats: Seq<Category>, name: Seq<char>) -> nat
    decreases cats.len(),
{
    if cats.len() == 0 {
        0
    } else {
        (if cats[0].title@ == name {
            1nat
        } else {
            0nat
        }) + count_title(cats.skip(1), name)
    }
}

/// Index of the first category with the given title; the length if none has
/// it.
pub open spec fn find_title(cats: Seq<Category>, name: Seq<char>) -> int
    decreases cats.len(),
{
    if cats.len() == 0 {
        0
    } else if cats[0].title@ == name {
        0
    } else {
        1 + find_title(cats.skip(1), name)
    }
}

/// Lookup by title: the unique category with that title, or nothing when
/// zero or several categories carry it.
pub open spec fn cat_lookup(cats: Seq<Category>, name: Seq<char>) -> Option<Category> {
    if count_title(cats, name) == 1 {
        Some(cats[find_title(cats, name)])
    } else {
        None
    }
}

proof fn lemma_count_title_snoc(cats: Seq<Category>, c: Category, name: Seq<char>)
    ensures
        count_title(cats.push(c), name) == count_title(cats, name) + (if c.title@ == name {
            1nat
        } else {
            0nat
        }),
    decreases cats.len(),
{
    if cats.len() == 0 {
        assert(cats.push(c).skip(1) =~= Seq::<Category>::empty());
        assert(cats.push(c)[0] == c);
        assert(count_title(Seq::<Category>::empty(), name) == 0);
    } else {
        assert(cats.push(c)[0] == cats[0]);
        assert(cats.push(c).skip(1) =~= cats.skip(1).push(c));
        lemma_count_title_snoc(cats.skip(1), c, name);
    }
}

proof fn lemma_find_title_props(cats: Seq<Category>, name: Seq<char>)
    ensures
        0 <= find_title(cats, name) <= cats.len(),
        find_title(cats, name) < cats.len() ==> cats[find_title(cats, name)].title@ == name,
        forall|k: int| 0 <= k < find_title(cats, name) ==> (#[trigger] cats[k]).title@ != name,
        count_title(cats, name) > 0 ==> find_title(cats, name) < cats.len(),
    decreases cats.len(),
{
    if cats.len() != 0 && cats[0].title@ != name {
        lemma_find_title_props(cats.skip(1), name);
        assert forall|k: int| 0 <= k < find_title(cats, name) implies (#[trigger] cats[k]).title@
            != name by {
            if k > 0 {
                assert(cats.skip(1)[k - 1] == cats[k]);
                assert(cats.skip(1)[k - 1].title@ != name);
            }
        }
        if find_title(cats, name) < cats.len() {
            assert(cats.skip(1)[find_title(cats, name) - 1] == cats[find_title(cats, name)]);
        }
        if count_title(cats, name) > 0 {
            assert(count_title(cats.skip(1), name) > 0);
        }
    }
}

proof fn lemma_count_title_zero(cats: Seq<Category>, name: Seq<char>)
    requires
        count_title(cats, name) == 0,
    ensures
        forall|k: int| 0 <= k < cats.len() ==> (#[trigger] cats[k]).title@ != name,
    decreases cats.len(),
{
    if cats.len() != 0 {
        lemma_count_title_zero(cats.skip(1), name);
        assert forall|k: int| 0 <= k < cats.len() implies (#[trigger] cats[k]).title@ != name by {
            if k > 0 {
                assert(cats.skip(1)[k - 1] == cats[k]);
            }
        }
    }
}

impl ScanResult {
    /// The unique category titled `name`; nothing when zero or several
    /// categories carry that title, which are indistinguishable outcomes
    /// here by design.
    pub fn get_category_by_name<'a>(&'a self, name: &str) -> (r: Option<&'a Category>)
        ensures
            match r {
                Some(c) => cat_lookup(self.categories@, name@) == Some(*c),
                None => cat_lookup(self.categories@, name@) is None,
            },
    {
        let cats = &self.categories;
        let n = cats.len();
        let mut matched: usize = 0;
        let mut first: usize = 0;
        let mut i: usize = 0;
        proof {
            assert(cats@.take(0) =~= Seq::<Category>::empty());
        }
        while i < n
            invariant
                n == cats@.len(),
                i <= n,
                matched == count_title(cats@.take(i as int), name@),
                matched <= i,
                matched > 0 ==> first < i && cats@[first as int].title@ == name@ && (forall|k: int|
                    0 <= k < first ==> (#[trigger] cats@[k]).title@ != name@),
            decreases n - i,
        {
            let is_m = str_eq(cats[i].title.as_str(), name);
            proof {
                assert(cats@.take(i + 1) =~= cats@.take(i as int).push(cats@[i as int]));
                lemma_count_title_snoc(cats@.take(i as int), cats@[i as int], name@);
                if is_m && matched == 0 {
                    lemma_count_title_zero(cats@.take(i as int), name@);
                    assert forall|k: int| 0 <= k < i implies (#[trigger] cats@[k]).title@
                        != name@ by {
                        assert(cats@.take(i as int)[k] == cats@[k]);
                    }
                }
            }
            if is_m {
                if matched == 0 {
                    first = i;
                }
                matched = matched + 1;
            }
            i += 1;
        }
        proof {
            assert(cats@.take(n as int) =~= cats@);
            lemma_find_title_props(cats@, name@);
        }
        if matched == 1 {
            proof {
                assert(find_title(cats@, name@) == first);
            }
            Some(&cats[first])
        } else {
            None
        }
    }
}

/// The cell standing under column `j` after anchoring the row's values at
/// the trailing columns: columns left without a value carry the fixed
/// parse-error placeholder.
pub open spec fn cell_value(cols: Seq<String>, row: Seq<String>, j: int) -> Seq<char> {
    if cols.len() - row.len() <= j {
        row[row.len() - cols.len() + j]@
    } else {
        "Parse Error!"@
    }
}

/// Whether `m` is the column-to-value mapping of `row` under `cols`.
pub open spec fn row_map_ok(cols: Seq<String>, row: Seq<String>, m: StringMap) -> bool {
    &&& m.pairs@.len() == cols.len()
    &&& forall|j: int|
        0 <= j < cols.len() ==> (#[trigger] m.pairs@[j]).0@ == cols[j]@ && m.pairs@[j].1@
            == cell_value(cols, row, j)
}

impl OtherInfo {
    /// Converts the tabular block into one mapping per row, pairing column
    /// names with the trailing values of the row; rows shorter than the
    /// column list are padded with the parse-error placeholder from the
    /// front.
    pub fn calculate_content_maps(&self) -> (r: Vec<StringMap>)
        ensures
            r@.len() == self.content@.len(),
            forall|i: int|
                0 <= i < r@.len() ==> row_map_ok(
                    self.column_names@,
                    self.content@[i]@,
                    #[trigger] r@[i],
                ),
    {
        let n = self.column_names.len();
        let rows = self.content.len();
        let mut r: Vec<StringMap> = Vec::new();
        let mut i: usize = 0;
        while i < rows
            invariant
                n == self.column_names@.len(),
                rows == self.content@.len(),
                i <= rows,
                r@.len() == i,
                forall|t: int|
                    0 <= t < i ==> row_map_ok(
                        self.column_names@,
                        self.content@[t]@,
                        #[trigger] r@[t],
                    ),
            decreases rows - i,
        {
            let row = &self.content[i];
            let m_len = row.len();
            let mut m = StringMap::new();
            let mut k: usize = 0;
            while k < n
                invariant
                    n == self.column_names@.len(),
                    m_len == row@.len(),
                    k <= n,
                    m.pairs@.len() == k,
                    forall|t: int|
                        0 <= t < k ==> (#[trigger] m.pairs@[t]).0@ == self.column_names@[n - k
                            + t]@ && m.pairs@[t].1@ == cell_value(
                            self.column_names@,
                            row@,
                            n - k + t,
                        ),
                decreases n - k,
            {
                let key = self.column_names[n - 1 - k].clone();
                let value = if k < m_len {
                    row[m_len - 1 - k].clone()
                } else {
                    "Parse Error!".to_owned()
                };
                proof {
                    assert(cell_value(self.column_names@, row@, n - 1 - k) == value@);
                }
                m.insert(key, value);
                k += 1;
            }
            proof {
                assert(row_map_ok(self.column_names@, self.content@[i as int]@, m));
            }
            r.push(m);
            i += 1;
        }
        r
    }
}

} // verus!

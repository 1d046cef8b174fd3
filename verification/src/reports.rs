//! The two grouped reports of the reporting page: documents per client and
//! process number, and cases per lawyer and status. Each report holds one
//! row per key with the exact count, in display order.

use vstd::prelude::*;
use crate::domain::{CaseModel, clone_opt_string, DocumentModel, opt_view};
use crate::order::{ListOrder, ordered};
use crate::rows::{ReportCaseRow, ReportDocRow};
use crate::store::{Database, DbModel};
use crate::text::str_eq;

verus! {

/// Whether two optional strings hold the same characters.
fn opt_str_eq(a: &Option<String>, b: &Option<String>) -> (r: bool)
    ensures
        r == (opt_view(*a) == opt_view(*b)),
{
    match (a, b) {
        (None, None) => true,
        (Some(x), Some(y)) => str_eq(x.as_str(), y.as_str()),
        _ => false,
    }
}

/// The group key of a document: the name of the client behind its case, and
/// that case's process number.
pub open spec fn doc_report_key(m: DbModel, d: DocumentModel) -> (Seq<char>, Option<Seq<char>>) {
    let c = m.cases[m.case_idx(d.id_caso)];
    (m.clients[m.client_idx(c.id_cliente)].nome, c.numero_processo)
}

/// The group key a report row carries.
pub open spec fn doc_row_key(r: ReportDocRow) -> (Seq<char>, Option<Seq<char>>) {
    (r.cliente_nome@, opt_view(r.numero_processo))
}

/// How many of these documents fall under the key.
pub open spec fn doc_key_count(
    m: DbModel,
    docs: Seq<DocumentModel>,
    k: (Seq<char>, Option<Seq<char>>),
) -> int
    decreases docs.len(),
{
    if docs.len() == 0 {
        0
    } else {
        doc_key_count(m, docs.drop_last(), k) + if doc_report_key(m, docs.last()) == k {
            1int
        } else {
            0int
        }
    }
}

pub open spec fn doc_key_present(
    m: DbModel,
    docs: Seq<DocumentModel>,
    k: (Seq<char>, Option<Seq<char>>),
) -> bool {
    exists|j: int| 0 <= j < docs.len() && doc_report_key(m, #[trigger] docs[j]) == k
}

pub open spec fn doc_row_with_key(
    rows: Seq<ReportDocRow>,
    k: (Seq<char>, Option<Seq<char>>),
) -> bool {
    exists|i: int| 0 <= i < rows.len() && doc_row_key(#[trigger] rows[i]) == k
}

proof fn lemma_doc_key_count_bounds(
    m: DbModel,
    docs: Seq<DocumentModel>,
    k: (Seq<char>, Option<Seq<char>>),
)
    ensures
        0 <= doc_key_count(m, docs, k) <= docs.len(),
        !doc_key_present(m, docs, k) ==> doc_key_count(m, docs, k) == 0,
    decreases docs.len(),
{
    if docs.len() > 0 {
        lemma_doc_key_count_bounds(m, docs.drop_last(), k);
        if !doc_key_present(m, docs, k) {
            assert(doc_report_key(m, docs[docs.len() - 1]) != k);
            assert forall|j: int| 0 <= j < docs.drop_last().len() implies doc_report_key(
                m,
                #[trigger] docs.drop_last()[j],
            ) != k by {
                assert(docs.drop_last()[j] == docs[j]);
            }
        }
    }
}

/// The grouping invariant of the documents report after `j` documents.
pub open spec fn doc_rows_ok(m: DbModel, rows: Seq<ReportDocRow>, j: int) -> bool {
    &&& forall|p: int, q: int|
        0 <= p < q < rows.len() ==> doc_row_key(#[trigger] rows[p]) != doc_row_key(
            #[trigger] rows[q],
        )
    &&& forall|i: int|
        0 <= i < rows.len() ==> (#[trigger] rows[i]).total_documentos == doc_key_count(
            m,
            m.documents.subrange(0, j),
            doc_row_key(rows[i]),
        ) && doc_key_present(m, m.documents.subrange(0, j), doc_row_key(rows[i]))
    &&& forall|d: int|
        0 <= d < j ==> doc_row_with_key(rows, doc_report_key(m, #[trigger] m.documents[d]))
}

proof fn lemma_doc_prefix_push(m: DbModel, j: int, k: (Seq<char>, Option<Seq<char>>))
    requires
        0 <= j < m.documents.len(),
    ensures
        doc_key_count(m, m.documents.subrange(0, j + 1), k) == doc_key_count(
            m,
            m.documents.subrange(0, j),
            k,
        ) + (if doc_report_key(m, m.documents[j]) == k {
            1int
        } else {
            0int
        }),
        doc_key_present(m, m.documents.subrange(0, j + 1), k) <==> (doc_key_present(
            m,
            m.documents.subrange(0, j),
            k,
        ) || doc_report_key(m, m.documents[j]) == k),
{
    let pre = m.documents.subrange(0, j);
    assert(m.documents.subrange(0, j + 1) =~= pre.push(m.documents[j]));
    assert(pre.push(m.documents[j]).drop_last() =~= pre);
    if doc_key_present(m, m.documents.subrange(0, j + 1), k) {
        let w = choose|w: int|
            0 <= w < j + 1 && doc_report_key(m, #[trigger] m.documents.subrange(0, j + 1)[w]) == k;
        if w < j {
            assert(doc_report_key(m, pre[w]) == k);
        }
    }
    if doc_key_present(m, pre, k) {
        let w = choose|w: int| 0 <= w < j && doc_report_key(m, #[trigger] pre[w]) == k;
        assert(doc_report_key(m, m.documents.subrange(0, j + 1)[w]) == k);
    }
    if doc_report_key(m, m.documents[j]) == k {
        assert(doc_report_key(m, m.documents.subrange(0, j + 1)[j]) == k);
    }
}

/// Raising the count of the row that carries the new document's key keeps
/// the report well-grouped.
#[verifier::rlimit(100)]
proof fn lemma_doc_bump(
    m: DbModel,
    pre_rows: Seq<ReportDocRow>,
    rows: Seq<ReportDocRow>,
    t: int,
    j: int,
)
    requires
        0 <= j < m.documents.len(),
        ordered(pre_rows),
        doc_rows_ok(m, pre_rows, j),
        0 <= t < pre_rows.len(),
        doc_row_key(pre_rows[t]) == doc_report_key(m, m.documents[j]),
        rows.len() == pre_rows.len(),
        rows == pre_rows.update(t, rows[t]),
        doc_row_key(rows[t]) == doc_row_key(pre_rows[t]),
        rows[t].total_documentos == pre_rows[t].total_documentos + 1,
    ensures
        ordered(rows),
        doc_rows_ok(m, rows, j + 1),
{
    let kk = doc_report_key(m, m.documents[j]);
    assert forall|i: int| 0 <= i < rows.len() implies (#[trigger] rows[i]).total_documentos
        == doc_key_count(m, m.documents.subrange(0, j + 1), doc_row_key(rows[i]))
        && doc_key_present(m, m.documents.subrange(0, j + 1), doc_row_key(rows[i])) by {
        lemma_doc_prefix_push(m, j, doc_row_key(rows[i]));
        if i != t {
            assert(rows[i] == pre_rows[i]);
            assert(doc_row_key(pre_rows[i]) != kk);
        }
    }
    assert forall|p: int, q: int| 0 <= p < q < rows.len() implies doc_row_key(
        #[trigger] rows[p],
    ) != doc_row_key(#[trigger] rows[q]) by {
        assert(doc_row_key(rows[p]) == doc_row_key(pre_rows[p]));
        assert(doc_row_key(rows[q]) == doc_row_key(pre_rows[q]));
    }
    assert forall|i: int| 0 <= i < rows.len() - 1 implies ReportDocRow::precedes(
        #[trigger] rows[i],
        rows[i + 1],
    ) by {
        assert(ReportDocRow::precedes(pre_rows[i], pre_rows[i + 1]));
        assert(doc_row_key(rows[i]) == doc_row_key(pre_rows[i]));
        assert(doc_row_key(rows[i + 1]) == doc_row_key(pre_rows[i + 1]));
    }
    assert forall|dd: int| 0 <= dd < j + 1 implies doc_row_with_key(
        rows,
        doc_report_key(m, #[trigger] m.documents[dd]),
    ) by {
        if dd < j {
            let w = choose|w: int|
                0 <= w < pre_rows.len() && doc_row_key(#[trigger] pre_rows[w]) == doc_report_key(
                    m,
                    m.documents[dd],
                );
            assert(doc_row_key(rows[w]) == doc_report_key(m, m.documents[dd]));
        } else {
            assert(doc_row_key(rows[t]) == kk);
        }
    }
}

/// Inserting a fresh count-one row for an unseen key, at its ordered
/// position, keeps the report well-grouped.
#[verifier::rlimit(100)]
proof fn lemma_doc_insert(
    m: DbModel,
    pre_rows: Seq<ReportDocRow>,
    rows: Seq<ReportDocRow>,
    pos: int,
    j: int,
)
    requires
        0 <= j < m.documents.len(),
        ordered(pre_rows),
        doc_rows_ok(m, pre_rows, j),
        forall|p: int|
            0 <= p < pre_rows.len() ==> doc_row_key(#[trigger] pre_rows[p]) != doc_report_key(
                m,
                m.documents[j],
            ),
        0 <= pos <= pre_rows.len(),
        rows.len() == pre_rows.len() + 1,
        rows == pre_rows.insert(pos, rows[pos]),
        doc_row_key(rows[pos]) == doc_report_key(m, m.documents[j]),
        rows[pos].total_documentos == 1,
        forall|p: int| 0 <= p < pos ==> ReportDocRow::precedes(#[trigger] pre_rows[p], rows[pos]),
        pos < pre_rows.len() ==> ReportDocRow::precedes(rows[pos], pre_rows[pos]),
    ensures
        ordered(rows),
        doc_rows_ok(m, rows, j + 1),
{
    let kk = doc_report_key(m, m.documents[j]);
    assert(!doc_key_present(m, m.documents.subrange(0, j), kk)) by {
        if doc_key_present(m, m.documents.subrange(0, j), kk) {
            let w = choose|w: int|
                0 <= w < j && doc_report_key(m, #[trigger] m.documents.subrange(0, j)[w]) == kk;
            assert(m.documents.subrange(0, j)[w] == m.documents[w]);
            assert(doc_row_with_key(pre_rows, doc_report_key(m, m.documents[w])));
            let v = choose|v: int|
                0 <= v < pre_rows.len() && doc_row_key(#[trigger] pre_rows[v]) == kk;
            assert(false);
        }
    }
    lemma_doc_key_count_bounds(m, m.documents.subrange(0, j), kk);
    assert forall|i: int| 0 <= i < rows.len() implies (#[trigger] rows[i]).total_documentos
        == doc_key_count(m, m.documents.subrange(0, j + 1), doc_row_key(rows[i]))
        && doc_key_present(m, m.documents.subrange(0, j + 1), doc_row_key(rows[i])) by {
        lemma_doc_prefix_push(m, j, doc_row_key(rows[i]));
        if i < pos {
            assert(rows[i] == pre_rows[i]);
            assert(doc_row_key(pre_rows[i]) != kk);
        } else if i > pos {
            assert(rows[i] == pre_rows[i - 1]);
            assert(doc_row_key(pre_rows[i - 1]) != kk);
        }
    }
    assert forall|p: int, q: int| 0 <= p < q < rows.len() implies doc_row_key(
        #[trigger] rows[p],
    ) != doc_row_key(#[trigger] rows[q]) by {
        let p0: int = if p < pos {
            p
        } else {
            p - 1
        };
        let q0: int = if q < pos {
            q
        } else {
            q - 1
        };
        if p == pos {
            assert(rows[q] == pre_rows[q0]);
        } else if q == pos {
            assert(rows[p] == pre_rows[p0]);
        } else {
            assert(rows[p] == pre_rows[p0]);
            assert(rows[q] == pre_rows[q0]);
        }
    }
    assert forall|i: int| 0 <= i < rows.len() - 1 implies ReportDocRow::precedes(
        #[trigger] rows[i],
        rows[i + 1],
    ) by {
        if i + 1 < pos {
            assert(rows[i] == pre_rows[i] && rows[i + 1] == pre_rows[i + 1]);
        } else if i + 1 == pos {
            assert(rows[i] == pre_rows[i] && rows[i + 1] == rows[pos]);
        } else if i == pos {
            assert(rows[i + 1] == pre_rows[i]);
        } else {
            assert(rows[i] == pre_rows[i - 1] && rows[i + 1] == pre_rows[i]);
        }
    }
    assert forall|dd: int| 0 <= dd < j + 1 implies doc_row_with_key(
        rows,
        doc_report_key(m, #[trigger] m.documents[dd]),
    ) by {
        if dd < j {
            let w = choose|w: int|
                0 <= w < pre_rows.len() && doc_row_key(#[trigger] pre_rows[w]) == doc_report_key(
                    m,
                    m.documents[dd],
                );
            let w1: int = if w < pos {
                w
            } else {
                w + 1
            };
            assert(rows[w1] == pre_rows[w]);
            assert(doc_row_key(rows[w1]) == doc_report_key(m, m.documents[dd]));
        } else {
            assert(doc_row_key(rows[pos]) == kk);
        }
    }
}

/// The group key of a case: its lawyer's name and its status description.
pub open spec fn case_report_key(m: DbModel, c: CaseModel) -> (Seq<char>, Seq<char>) {
    (m.lawyers[m.lawyer_idx(c.id_advogado)].nome, m.statuses[m.status_idx(c.id_status)].descricao)
}

pub open spec fn case_row_key(r: ReportCaseRow) -> (Seq<char>, Seq<char>) {
    (r.advogado_nome@, r.status_descricao@)
}

pub open spec fn case_key_count(m: DbModel, cases: Seq<CaseModel>, k: (Seq<char>, Seq<char>)) -> int
    decreases cases.len(),
{
    if cases.len() == 0 {
        0
    } else {
        case_key_count(m, cases.drop_last(), k) + if case_report_key(m, cases.last()) == k {
            1int
        } else {
            0int
        }
    }
}

pub open spec fn case_key_present(
    m: DbModel,
    cases: Seq<CaseModel>,
    k: (Seq<char>, Seq<char>),
) -> bool {
    exists|j: int| 0 <= j < cases.len() && case_report_key(m, #[trigger] cases[j]) == k
}

pub open spec fn case_row_with_key(rows: Seq<ReportCaseRow>, k: (Seq<char>, Seq<char>)) -> bool {
    exists|i: int| 0 <= i < rows.len() && case_row_key(#[trigger] rows[i]) == k
}

proof fn lemma_case_key_count_bounds(m: DbModel, cases: Seq<CaseModel>, k: (Seq<char>, Seq<char>))
    ensures
        0 <= case_key_count(m, cases, k) <= cases.len(),
        !case_key_present(m, cases, k) ==> case_key_count(m, cases, k) == 0,
    decreases cases.len(),
{
    if cases.len() > 0 {
        lemma_case_key_count_bounds(m, cases.drop_last(), k);
        if !case_key_present(m, cases, k) {
            assert(case_report_key(m, cases[cases.len() - 1]) != k);
            assert forall|j: int| 0 <= j < cases.drop_last().len() implies case_report_key(
                m,
                #[trigger] cases.drop_last()[j],
            ) != k by {
                assert(cases.drop_last()[j] == cases[j]);
            }
        }
    }
}

/// The grouping invariant of the cases report after `j` cases.
pub open spec fn case_rows_ok(m: DbModel, rows: Seq<ReportCaseRow>, j: int) -> bool {
    &&& forall|p: int, q: int|
        0 <= p < q < rows.len() ==> case_row_key(#[trigger] rows[p]) != case_row_key(
            #[trigger] rows[q],
        )
    &&& forall|i: int|
        0 <= i < rows.len() ==> (#[trigger] rows[i]).total_casos == case_key_count(
            m,
            m.cases.subrange(0, j),
            case_row_key(rows[i]),
        ) && case_key_present(m, m.cases.subrange(0, j), case_row_key(rows[i]))
    &&& forall|d: int|
        0 <= d < j ==> case_row_with_key(rows, case_report_key(m, #[trigger] m.cases[d]))
}

proof fn lemma_case_prefix_push(m: DbModel, j: int, k: (Seq<char>, Seq<char>))
    requires
        0 <= j < m.cases.len(),
    ensures
        case_key_count(m, m.cases.subrange(0, j + 1), k) == case_key_count(
            m,
            m.cases.subrange(0, j),
            k,
        ) + (if case_report_key(m, m.cases[j]) == k {
            1int
        } else {
            0int
        }),
        case_key_present(m, m.cases.subrange(0, j + 1), k) <==> (case_key_present(
            m,
            m.cases.subrange(0, j),
            k,
        ) || case_report_key(m, m.cases[j]) == k),
{
    let pre = m.cases.subrange(0, j);
    assert(m.cases.subrange(0, j + 1) =~= pre.push(m.cases[j]));
    assert(pre.push(m.cases[j]).drop_last() =~= pre);
    if case_key_present(m, m.cases.subrange(0, j + 1), k) {
        let w = choose|w: int|
            0 <= w < j + 1 && case_report_key(m, #[trigger] m.cases.subrange(0, j + 1)[w]) == k;
        if w < j {
            assert(case_report_key(m, pre[w]) == k);
        }
    }
    if case_key_present(m, pre, k) {
        let w = choose|w: int| 0 <= w < j && case_report_key(m, #[trigger] pre[w]) == k;
        assert(case_report_key(m, m.cases.subrange(0, j + 1)[w]) == k);
    }
    if case_report_key(m, m.cases[j]) == k {
        assert(case_report_key(m, m.cases.subrange(0, j + 1)[j]) == k);
    }
}

/// Raising the count of the row that carries the new case's key keeps the
/// report well-grouped.
#[verifier::rlimit(100)]
proof fn lemma_case_bump(
    m: DbModel,
    pre_rows: Seq<ReportCaseRow>,
    rows: Seq<ReportCaseRow>,
    t: int,
    j: int,
)
    requires
        0 <= j < m.cases.len(),
        ordered(pre_rows),
        case_rows_ok(m, pre_rows, j),
        0 <= t < pre_rows.len(),
        case_row_key(pre_rows[t]) == case_report_key(m, m.cases[j]),
        rows.len() == pre_rows.len(),
        rows == pre_rows.update(t, rows[t]),
        case_row_key(rows[t]) == case_row_key(pre_rows[t]),
        rows[t].total_casos == pre_rows[t].total_casos + 1,
    ensures
        ordered(rows),
        case_rows_ok(m, rows, j + 1),
{
    let kk = case_report_key(m, m.cases[j]);
    assert forall|i: int| 0 <= i < rows.len() implies (#[trigger] rows[i]).total_casos
        == case_key_count(m, m.cases.subrange(0, j + 1), case_row_key(rows[i]))
        && case_key_present(m, m.cases.subrange(0, j + 1), case_row_key(rows[i])) by {
        lemma_case_prefix_push(m, j, case_row_key(rows[i]));
        if i != t {
            assert(rows[i] == pre_rows[i]);
            assert(case_row_key(pre_rows[i]) != kk);
        }
    }
    assert forall|p: int, q: int| 0 <= p < q < rows.len() implies case_row_key(
        #[trigger] rows[p],
    ) != case_row_key(#[trigger] rows[q]) by {
        assert(case_row_key(rows[p]) == case_row_key(pre_rows[p]));
        assert(case_row_key(rows[q]) == case_row_key(pre_rows[q]));
    }
    assert forall|i: int| 0 <= i < rows.len() - 1 implies ReportCaseRow::precedes(
        #[trigger] rows[i],
        rows[i + 1],
    ) by {
        assert(ReportCaseRow::precedes(pre_rows[i], pre_rows[i + 1]));
        assert(case_row_key(rows[i]) == case_row_key(pre_rows[i]));
        assert(case_row_key(rows[i + 1]) == case_row_key(pre_rows[i + 1]));
    }
    assert forall|dd: int| 0 <= dd < j + 1 implies case_row_with_key(
        rows,
        case_report_key(m, #[trigger] m.cases[dd]),
    ) by {
        if dd < j {
            let w = choose|w: int|
                0 <= w < pre_rows.len() && case_row_key(#[trigger] pre_rows[w]) == case_report_key(
                    m,
                    m.cases[dd],
                );
            assert(case_row_key(rows[w]) == case_report_key(m, m.cases[dd]));
        } else {
            assert(case_row_key(rows[t]) == kk);
        }
    }
}

/// Inserting a fresh count-one row for an unseen key, at its ordered
/// position, keeps the report well-grouped.
#[verifier::rlimit(100)]
proof fn lemma_case_insert(
    m: DbModel,
    pre_rows: Seq<ReportCaseRow>,
    rows: Seq<ReportCaseRow>,
    pos: int,
    j: int,
)
    requires
        0 <= j < m.cases.len(),
        ordered(pre_rows),
        case_rows_ok(m, pre_rows, j),
        forall|p: int|
            0 <= p < pre_rows.len() ==> case_row_key(#[trigger] pre_rows[p]) != case_report_key(
                m,
                m.cases[j],
            ),
        0 <= pos <= pre_rows.len(),
        rows.len() == pre_rows.len() + 1,
        rows == pre_rows.insert(pos, rows[pos]),
        case_row_key(rows[pos]) == case_report_key(m, m.cases[j]),
        rows[pos].total_casos == 1,
        forall|p: int| 0 <= p < pos ==> ReportCaseRow::precedes(#[trigger] pre_rows[p], rows[pos]),
        pos < pre_rows.len() ==> ReportCaseRow::precedes(rows[pos], pre_rows[pos]),
    ensures
        ordered(rows),
        case_rows_ok(m, rows, j + 1),
{
    let kk = case_report_key(m, m.cases[j]);
    assert(!case_key_present(m, m.cases.subrange(0, j), kk)) by {
        if case_key_present(m, m.cases.subrange(0, j), kk) {
            let w = choose|w: int|
                0 <= w < j && case_report_key(m, #[trigger] m.cases.subrange(0, j)[w]) == kk;
            assert(m.cases.subrange(0, j)[w] == m.cases[w]);
            assert(case_row_with_key(pre_rows, case_report_key(m, m.cases[w])));
            let v = choose|v: int|
                0 <= v < pre_rows.len() && case_row_key(#[trigger] pre_rows[v]) == kk;
            assert(false);
        }
    }
    lemma_case_key_count_bounds(m, m.cases.subrange(0, j), kk);
    assert forall|i: int| 0 <= i < rows.len() implies (#[trigger] rows[i]).total_casos
        == case_key_count(m, m.cases.subrange(0, j + 1), case_row_key(rows[i]))
        && case_key_present(m, m.cases.subrange(0, j + 1), case_row_key(rows[i])) by {
        lemma_case_prefix_push(m, j, case_row_key(rows[i]));
        if i < pos {
            assert(rows[i] == pre_rows[i]);
            assert(case_row_key(pre_rows[i]) != kk);
        } else if i > pos {
            assert(rows[i] == pre_rows[i - 1]);
            assert(case_row_key(pre_rows[i - 1]) != kk);
        }
    }
    assert forall|p: int, q: int| 0 <= p < q < rows.len() implies case_row_key(
        #[trigger] rows[p],
    ) != case_row_key(#[trigger] rows[q]) by {
        let p0: int = if p < pos {
            p
        } else {
            p - 1
        };
        let q0: int = if q < pos {
            q
        } else {
            q - 1
        };
        if p == pos {
            assert(rows[q] == pre_rows[q0]);
        } else if q == pos {
            assert(rows[p] == pre_rows[p0]);
        } else {
            assert(rows[p] == pre_rows[p0]);
            assert(rows[q] == pre_rows[q0]);
        }
    }
    assert forall|i: int| 0 <= i < rows.len() - 1 implies ReportCaseRow::precedes(
        #[trigger] rows[i],
        rows[i + 1],
    ) by {
        if i + 1 < pos {
            assert(rows[i] == pre_rows[i] && rows[i + 1] == pre_rows[i + 1]);
        } else if i + 1 == pos {
            assert(rows[i] == pre_rows[i] && rows[i + 1] == rows[pos]);
        } else if i == pos {
            assert(rows[i + 1] == pre_rows[i]);
        } else {
            assert(rows[i] == pre_rows[i - 1] && rows[i + 1] == pre_rows[i]);
        }
    }
    assert forall|dd: int| 0 <= dd < j + 1 implies case_row_with_key(
        rows,
        case_report_key(m, #[trigger] m.cases[dd]),
    ) by {
        if dd < j {
            let w = choose|w: int|
                0 <= w < pre_rows.len() && case_row_key(#[trigger] pre_rows[w]) == case_report_key(
                    m,
                    m.cases[dd],
                );
            let w1: int = if w < pos {
                w
            } else {
                w + 1
            };
            assert(rows[w1] == pre_rows[w]);
            assert(case_row_key(rows[w1]) == case_report_key(m, m.cases[dd]));
        } else {
            assert(case_row_key(rows[pos]) == kk);
        }
    }
}

impl Database {
    #[verifier::rlimit(100)]
    fn doc_absorb(&self, rows: &mut Vec<ReportDocRow>, j: usize)
        requires
            self.wf(),
            j < self.documents@.len(),
            ordered(old(rows)@),
            doc_rows_ok(self@, old(rows)@, j as int),
        ensures
            ordered(final(rows)@),
            doc_rows_ok(self@, final(rows)@, j + 1),
    {
        let ghost m = self@;
        let ghost kk = doc_report_key(self@, self@.documents[j as int]);
        let n = self.documents.len();
        proof {
            assert(j < n);
        }
        let d = &self.documents[j];
        let ci = match self.case_pos(d.id_caso) {
            Some(x) => x,
            None => vstd::pervasive::unreached(),
        };
        let cl = match self.client_pos(self.cases[ci].id_cliente) {
            Some(x) => x,
            None => vstd::pervasive::unreached(),
        };
        proof {
            assert(self@.case_refs_ok(#[trigger] self@.cases[ci as int]));
        }
        let nome = self.clients[cl].nome.clone();
        let numero = clone_opt_string(&self.cases[ci].numero_processo);
        proof {
            assert(nome@ == kk.0);
            assert(opt_view(numero) == kk.1);
        }
        let mut t: usize = 0;
        let mut found: bool = false;
        while t < rows.len() && !found
            invariant
                0 <= t <= rows@.len(),
                nome@ == kk.0,
                opt_view(numero) == kk.1,
                !found ==> forall|p: int| 0 <= p < t ==> doc_row_key(#[trigger] rows@[p]) != kk,
                found ==> t < rows@.len() && doc_row_key(rows@[t as int]) == kk,
            decreases rows@.len() - t + (if found {
                0int
            } else {
                1int
            }),
        {
            let hit = str_eq(rows[t].cliente_nome.as_str(), nome.as_str()) && opt_str_eq(
                &rows[t].numero_processo,
                &numero,
            );
            if hit {
                found = true;
            } else {
                t += 1;
            }
        }
        if found {
            let ghost pre_rows = rows@;
            proof {
                assert(m.documents.subrange(0, j as int).len() == j as int);
                assert(doc_row_key(pre_rows[t as int]) == kk);
                assert(pre_rows[t as int].total_documentos == doc_key_count(
                    m,
                    m.documents.subrange(0, j as int),
                    kk,
                ));
                lemma_doc_key_count_bounds(m, m.documents.subrange(0, j as int), kk);
                assert(pre_rows[t as int].total_documentos <= j);
            }
            let old_row = rows.remove(t);
            let bumped = ReportDocRow {
                cliente_nome: old_row.cliente_nome,
                numero_processo: old_row.numero_processo,
                total_documentos: old_row.total_documentos + 1,
            };
            rows.insert(t, bumped);
            proof {
                assert(rows@ =~= pre_rows.update(t as int, rows@[t as int]));
                lemma_doc_bump(m, pre_rows, rows@, t as int, j as int);
            }
        } else {
            let ghost pre_rows = rows@;
            let fresh = ReportDocRow {
                cliente_nome: nome,
                numero_processo: numero,
                total_documentos: 1,
            };
            let mut pos: usize = 0;
            while pos < rows.len() && rows[pos].leq(&fresh)
                invariant
                    0 <= pos <= rows@.len(),
                    rows@ == pre_rows,
                    forall|p: int|
                        0 <= p < pos ==> ReportDocRow::precedes(#[trigger] rows@[p], fresh),
                decreases rows@.len() - pos,
            {
                pos += 1;
            }
            proof {
                if pos < rows@.len() {
                    ReportDocRow::lemma_total(fresh, rows@[pos as int]);
                }
            }
            rows.insert(pos, fresh);
            proof {
                assert(rows@ =~= pre_rows.insert(pos as int, rows@[pos as int]));
                lemma_doc_insert(m, pre_rows, rows@, pos as int, j as int);
            }
        }
    }

    /// Count the documents of each client-and-process pair: one row per
    /// pair, with the exact total, ordered by client name and then process
    /// number.
    pub fn report_documents_by_client_case(&self) -> (r: Vec<ReportDocRow>)
        requires
            self.wf(),
        ensures
            ordered(r@),
            doc_rows_ok(self@, r@, self@.documents.len() as int),
    {
        let mut rows: Vec<ReportDocRow> = Vec::new();
        let mut j: usize = 0;
        while j < self.documents.len()
            invariant
                self.wf(),
                0 <= j <= self.documents@.len(),
                ordered(rows@),
                doc_rows_ok(self@, rows@, j as int),
            decreases self.documents@.len() - j,
        {
            self.doc_absorb(&mut rows, j);
            j += 1;
        }
        rows
    }

    #[verifier::rlimit(100)]
    fn case_absorb(&self, rows: &mut Vec<ReportCaseRow>, j: usize)
        requires
            self.wf(),
            j < self.cases@.len(),
            ordered(old(rows)@),
            case_rows_ok(self@, old(rows)@, j as int),
        ensures
            ordered(final(rows)@),
            case_rows_ok(self@, final(rows)@, j + 1),
    {
        let ghost m = self@;
        let ghost kk = case_report_key(self@, self@.cases[j as int]);
        let n = self.cases.len();
        proof {
            assert(j < n);
            assert(self@.case_refs_ok(#[trigger] self@.cases[j as int]));
        }
        let c = &self.cases[j];
        let li = match self.lawyer_pos(c.id_advogado) {
            Some(x) => x,
            None => vstd::pervasive::unreached(),
        };
        let si = match self.status_pos(c.id_status) {
            Some(x) => x,
            None => vstd::pervasive::unreached(),
        };
        let nome = self.lawyers[li].nome.clone();
        let descricao = self.statuses[si].descricao.clone();
        proof {
            assert(nome@ == kk.0);
            assert(descricao@ == kk.1);
        }
        let mut t: usize = 0;
        let mut found: bool = false;
        while t < rows.len() && !found
            invariant
                0 <= t <= rows@.len(),
                nome@ == kk.0,
                descricao@ == kk.1,
                !found ==> forall|p: int| 0 <= p < t ==> case_row_key(#[trigger] rows@[p]) != kk,
                found ==> t < rows@.len() && case_row_key(rows@[t as int]) == kk,
            decreases rows@.len() - t + (if found {
                0int
            } else {
                1int
            }),
        {
            let hit = str_eq(rows[t].advogado_nome.as_str(), nome.as_str()) && str_eq(
                rows[t].status_descricao.as_str(),
                descricao.as_str(),
            );
            if hit {
                found = true;
            } else {
                t += 1;
            }
        }
        if found {
            let ghost pre_rows = rows@;
            proof {
                assert(m.cases.subrange(0, j as int).len() == j as int);
                assert(case_row_key(pre_rows[t as int]) == kk);
                assert(pre_rows[t as int].total_casos == case_key_count(
                    m,
                    m.cases.subrange(0, j as int),
                    kk,
                ));
                lemma_case_key_count_bounds(m, m.cases.subrange(0, j as int), kk);
                assert(pre_rows[t as int].total_casos <= j);
            }
            let old_row = rows.remove(t);
            let bumped = ReportCaseRow {
                advogado_nome: old_row.advogado_nome,
                status_descricao: old_row.status_descricao,
                total_casos: old_row.total_casos + 1,
            };
            rows.insert(t, bumped);
            proof {
                assert(rows@ =~= pre_rows.update(t as int, rows@[t as int]));
                lemma_case_bump(m, pre_rows, rows@, t as int, j as int);
            }
        } else {
            let ghost pre_rows = rows@;
            let fresh = ReportCaseRow {
                advogado_nome: nome,
                status_descricao: descricao,
                total_casos: 1,
            };
            let mut pos: usize = 0;
            while pos < rows.len() && rows[pos].leq(&fresh)
                invariant
                    0 <= pos <= rows@.len(),
                    rows@ == pre_rows,
                    forall|p: int|
                        0 <= p < pos ==> ReportCaseRow::precedes(#[trigger] rows@[p], fresh),
                decreases rows@.len() - pos,
            {
                pos += 1;
            }
            proof {
                if pos < rows@.len() {
                    ReportCaseRow::lemma_total(fresh, rows@[pos as int]);
                }
            }
            rows.insert(pos, fresh);
            proof {
                assert(rows@ =~= pre_rows.insert(pos as int, rows@[pos as int]));
                lemma_case_insert(m, pre_rows, rows@, pos as int, j as int);
            }
        }
    }

    /// Count the cases of each lawyer-and-status pair: one row per pair,
    /// with the exact total, ordered by lawyer name and then status.
    pub fn report_cases_by_lawyer_status(&self) -> (r: Vec<ReportCaseRow>)
        requires
            self.wf(),
        ensures
            ordered(r@),
            case_rows_ok(self@, r@, self@.cases.len() as int),
    {
        let mut rows: Vec<ReportCaseRow> = Vec::new();
        let mut j: usize = 0;
        while j < self.cases.len()
            invariant
                self.wf(),
                0 <= j <= self.cases@.len(),
                ordered(rows@),
                case_rows_ok(self@, rows@, j as int),
            decreases self.cases@.len() - j,
        {
            self.case_absorb(&mut rows, j);
            j += 1;
        }
        rows
    }
}

} // verus!

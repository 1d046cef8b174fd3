//! The document gateway: create and update decode the base64 payload and
//! probe the case they attach to; the download path returns the stored
//! bytes with a filename-derived content type and an attachment header.
//! Listing never touches the binary column.

use vstd::prelude::*;
use base64::Engine;
use crate::dates::{parse_date, parse_date_spec};
use crate::domain::{
    DocumentModel, DocumentPayload, DocumentPayloadModel, DocumentRec, DocumentUpdateModel,
    DocumentUpdatePayload, Field, GatewayError,
};
use crate::store::{
    Database, DbModel, lemma_has_case_preserved, lemma_has_category_preserved,
    lemma_has_client_preserved, lemma_has_court_preserved, lemma_has_lawyer_preserved,
    lemma_has_status_preserved,
};

verus! {

/// What the standard base64 alphabet decodes a string to; a function of the
/// characters alone, absent when the input is not valid base64.
pub uninterp spec fn b64_decoded(s: Seq<char>) -> Option<Seq<u8>>;

/// Relies on `base64`'s `STANDARD` engine `decode`: the result depends on
/// the input characters alone, and the empty input decodes to no bytes.
#[verifier::external_body]
fn b64_decode(s: &str) -> (r: Option<Vec<u8>>)
    ensures
        (r is None) == (b64_decoded(s@) is None),
        (r matches Some(b) ==> b64_decoded(s@) == Some(b@)),
        (r is None ==> s@.len() != 0),
        (r matches Some(b) ==> (s@.len() == 0 ==> b@.len() == 0)),
{
    match base64::engine::general_purpose::STANDARD.decode(s) {
        Ok(b) => Some(b),
        Err(_) => None,
    }
}

/// The content type that the filename's extension suggests; a function of
/// the name alone, with a generic binary type as the fallback.
pub uninterp spec fn mime_for(name: Seq<char>) -> Seq<char>;

/// Relies on `mime_guess::from_path` followed by `first_or_octet_stream`:
/// the guess depends on the file name alone, and a name without a dot has
/// no extension to guess from, so it takes the generic binary fallback.
#[verifier::external_body]
fn guess_mime(name: &str) -> (r: String)
    ensures
        r@ == mime_for(name@),
        (r@ == "application/octet-stream"@ || exists|i: int|
            0 <= i < name@.len() && name@[i] == '.'),
{
    mime_guess::from_path(name).first_or_octet_stream().to_string()
}

/// The document row that a create inserts.
pub open spec fn new_document_model(
    id: i32,
    p: DocumentPayloadModel,
    d: crate::dates::Date,
    bytes: Seq<u8>,
) -> DocumentModel {
    DocumentModel {
        id: id,
        id_caso: p.id_caso,
        descricao: p.descricao,
        data_envio: Some(d),
        nome_arquivo: p.nome_arquivo,
        arquivo: Some(bytes),
    }
}

/// What a document create does: decode the base64 content, parse the send
/// date strictly, probe the case, insert.
pub open spec fn create_document_spec(m: DbModel, p: DocumentPayloadModel) -> (
    DbModel,
    Result<i32, GatewayError>,
) {
    match b64_decoded(p.arquivo_base64) {
        None => (m, Err(GatewayError::Validation(Field::ArquivoBase64))),
        Some(bytes) => {
            match parse_date_spec(p.data_envio) {
                None => (m, Err(GatewayError::InvalidDate(Field::DataEnvio))),
                Some(d) => {
                    if !m.has_case(p.id_caso) {
                        (m, Err(GatewayError::ReferencedEntityMissing(Field::IdCaso)))
                    } else {
                        (
                            DbModel {
                                documents: m.documents.push(
                                    new_document_model(m.next_document_id, p, d, bytes),
                                ),
                                next_document_id: (m.next_document_id + 1) as i32,
                                ..m
                            },
                            Ok(m.next_document_id),
                        )
                    }
                },
            }
        },
    }
}

/// What a document update does: the same checks; an omitted file keeps the
/// stored content.
pub open spec fn update_document_spec(m: DbModel, p: DocumentUpdateModel) -> (
    DbModel,
    Result<(), GatewayError>,
) {
    match parse_date_spec(p.data_envio) {
        None => (m, Err(GatewayError::InvalidDate(Field::DataEnvio))),
        Some(d) => {
            if (p.arquivo_base64 matches Some(s) && b64_decoded(s) is None) {
                (m, Err(GatewayError::Validation(Field::ArquivoBase64)))
            } else if !m.has_case(p.id_caso) {
                (m, Err(GatewayError::ReferencedEntityMissing(Field::IdCaso)))
            } else if !m.has_document(p.id) {
                (m, Err(GatewayError::NotFound))
            } else {
                (
                    DbModel {
                        documents: m.documents.update(
                            m.document_idx(p.id),
                            DocumentModel {
                                id: p.id,
                                id_caso: p.id_caso,
                                descricao: p.descricao,
                                data_envio: Some(d),
                                nome_arquivo: p.nome_arquivo,
                                arquivo: match p.arquivo_base64 {
                                    Some(s) => b64_decoded(s),
                                    None => m.documents[m.document_idx(p.id)].arquivo,
                                },
                            },
                        ),
                        ..m
                    },
                    Ok(()),
                )
            }
        },
    }
}

/// What a document delete does.
pub open spec fn delete_document_spec(m: DbModel, id: i32) -> (DbModel, Result<(), GatewayError>) {
    if !m.has_document(id) {
        (m, Err(GatewayError::NotFound))
    } else {
        (DbModel { documents: m.documents.remove(m.document_idx(id)), ..m }, Ok(()))
    }
}

/// Why a download found nothing to serve: the row is absent, or it exists
/// but its binary column is empty — two answers the route words apart.
#[derive(Debug, Clone, Copy, PartialEq, Eq, Structural)]
pub enum DownloadError {
    /// No document carries the id.
    DocumentNotFound,
    /// The metadata row exists but holds no bytes.
    ContentMissing,
}

/// What a download yields: the stored file name and bytes of that document,
/// or which of the two absences stopped it.
pub open spec fn download_spec(m: DbModel, id: i32) -> Result<(Seq<char>, Seq<u8>), DownloadError> {
    if !m.has_document(id) {
        Err(DownloadError::DocumentNotFound)
    } else {
        match m.documents[m.document_idx(id)].arquivo {
            None => Err(DownloadError::ContentMissing),
            Some(b) => Ok((m.documents[m.document_idx(id)].nome_arquivo, b)),
        }
    }
}

/// The attachment header for a stored file name.
pub open spec fn disposition_of(name: Seq<char>) -> Seq<char> {
    "attachment; filename=\""@ + name + "\""@
}

/// A document served for download: the stored bytes with the two headers
/// the route sends.
#[derive(Debug)]
pub struct DownloadFile {
    pub nome_arquivo: String,
    pub content_type: String,
    pub content_disposition: String,
    pub bytes: Vec<u8>,
}

proof fn lemma_wf_after_document_push(m0: DbModel, m1: DbModel, d: DocumentModel)
    requires
        m0.wf(),
        m0.next_document_id < i32::MAX,
        d.id == m0.next_document_id,
        (d.data_envio matches Some(x) ==> x.wf()),
        m0.has_case(d.id_caso),
        m1 == (DbModel {
            documents: m0.documents.push(d),
            next_document_id: (m0.next_document_id + 1) as i32,
            ..m0
        }),
    ensures
        m1.wf(),
{
    lemma_has_client_preserved(m0, m1);
    lemma_has_lawyer_preserved(m0, m1);
    lemma_has_status_preserved(m0, m1);
    lemma_has_court_preserved(m0, m1);
    lemma_has_category_preserved(m0, m1);
    lemma_has_case_preserved(m0, m1);
    assert forall|i: int| 0 <= i < m1.documents.len() implies 1 <= (#[trigger] m1.documents[i]).id
        < m1.next_document_id && m1.has_case(m1.documents[i].id_caso) && (
    m1.documents[i].data_envio matches Some(x) ==> x.wf()) by {
        if i < m0.documents.len() {
            assert(m1.documents[i] == m0.documents[i]);
            assert(m0.has_case(m0.documents[i].id_caso));
        } else {
            assert(m1.documents[i] == d);
        }
    }
    assert forall|p: int, q: int| 0 <= p < q < m1.documents.len() implies (
    #[trigger] m1.documents[p]).id != (#[trigger] m1.documents[q]).id by {
        assert(m1.documents[p] == m0.documents[p]);
        if q < m0.documents.len() {
            assert(m1.documents[q] == m0.documents[q]);
        } else {
            assert(m0.documents[p].id < m0.next_document_id);
        }
    }
    assert forall|i: int| 0 <= i < m1.cases.len() implies m1.case_refs_ok(
        #[trigger] m1.cases[i],
    ) by {
        assert(m0.case_refs_ok(m0.cases[i]));
    }
}

proof fn lemma_wf_after_document_update(m0: DbModel, m1: DbModel, id: i32, i: int, d: DocumentModel)
    requires
        m0.wf(),
        0 <= i < m0.documents.len(),
        m0.documents[i].id == id,
        d.id == id,
        (d.data_envio matches Some(x) ==> x.wf()),
        m0.has_case(d.id_caso),
        m1 == (DbModel { documents: m0.documents.update(i, d), ..m0 }),
    ensures
        m1.wf(),
{
    lemma_has_client_preserved(m0, m1);
    lemma_has_lawyer_preserved(m0, m1);
    lemma_has_status_preserved(m0, m1);
    lemma_has_court_preserved(m0, m1);
    lemma_has_category_preserved(m0, m1);
    lemma_has_case_preserved(m0, m1);
    assert forall|k: int| 0 <= k < m1.documents.len() implies 1 <= (#[trigger] m1.documents[k]).id
        < m1.next_document_id && m1.has_case(m1.documents[k].id_caso) && (
    m1.documents[k].data_envio matches Some(x) ==> x.wf()) by {
        if k != i {
            assert(m1.documents[k] == m0.documents[k]);
            assert(m0.has_case(m0.documents[k].id_caso));
        } else {
            assert(m1.documents[k] == d);
        }
    }
    assert forall|p: int, q: int| 0 <= p < q < m1.documents.len() implies (
    #[trigger] m1.documents[p]).id != (#[trigger] m1.documents[q]).id by {
        assert(m0.documents[p].id != m0.documents[q].id);
        if p != i {
            assert(m1.documents[p] == m0.documents[p]);
        }
        if q != i {
            assert(m1.documents[q] == m0.documents[q]);
        }
    }
    assert forall|k: int| 0 <= k < m1.cases.len() implies m1.case_refs_ok(
        #[trigger] m1.cases[k],
    ) by {
        assert(m0.case_refs_ok(m0.cases[k]));
    }
}

proof fn lemma_wf_after_document_remove(m0: DbModel, m1: DbModel, id: i32, i: int)
    requires
        m0.wf(),
        0 <= i < m0.documents.len(),
        m0.documents[i].id == id,
        m1 == (DbModel { documents: m0.documents.remove(i), ..m0 }),
    ensures
        m1.wf(),
{
    lemma_has_client_preserved(m0, m1);
    lemma_has_lawyer_preserved(m0, m1);
    lemma_has_status_preserved(m0, m1);
    lemma_has_court_preserved(m0, m1);
    lemma_has_category_preserved(m0, m1);
    lemma_has_case_preserved(m0, m1);
    assert forall|k: int| 0 <= k < m1.documents.len() implies 1 <= (#[trigger] m1.documents[k]).id
        < m1.next_document_id && m1.has_case(m1.documents[k].id_caso) && (
    m1.documents[k].data_envio matches Some(x) ==> x.wf()) by {
        let k0: int = if k < i {
            k
        } else {
            k + 1
        };
        assert(m1.documents[k] == m0.documents[k0]);
        assert(m0.has_case(m0.documents[k0].id_caso));
    }
    assert forall|p: int, q: int| 0 <= p < q < m1.documents.len() implies (
    #[trigger] m1.documents[p]).id != (#[trigger] m1.documents[q]).id by {
        let p0: int = if p < i {
            p
        } else {
            p + 1
        };
        let q0: int = if q < i {
            q
        } else {
            q + 1
        };
        assert(m1.documents[p] == m0.documents[p0]);
        assert(m1.documents[q] == m0.documents[q0]);
        assert(m0.documents[p0].id != m0.documents[q0].id);
    }
    assert forall|k: int| 0 <= k < m1.cases.len() implies m1.case_refs_ok(
        #[trigger] m1.cases[k],
    ) by {
        assert(m0.case_refs_ok(m0.cases[k]));
    }
}

impl Database {
    /// Attach a document to a case from its JSON payload. Succeeds exactly
    /// when the base64 content decodes, the send date parses and the case
    /// exists; the stored bytes are the decoded content.
    pub fn create_document(&mut self, p: &DocumentPayload) -> (r: Result<i32, GatewayError>)
        requires
            old(self).wf(),
            old(self).next_document_id < i32::MAX,
        ensures
            final(self).wf(),
            final(self)@ == create_document_spec(old(self)@, p@).0,
            r == create_document_spec(old(self)@, p@).1,
    {
        let bytes = match b64_decode(p.arquivo_base64.as_str()) {
            Some(b) => b,
            None => {
                return Err(GatewayError::Validation(Field::ArquivoBase64));
            },
        };
        let d = match parse_date(p.data_envio.as_str()) {
            Some(d) => d,
            None => {
                return Err(GatewayError::InvalidDate(Field::DataEnvio));
            },
        };
        if !self.has_case(p.id_caso) {
            return Err(GatewayError::ReferencedEntityMissing(Field::IdCaso));
        }
        let id = self.next_document_id;
        self.documents.push(
            DocumentRec {
                id,
                id_caso: p.id_caso,
                descricao: p.descricao.clone(),
                data_envio: Some(d),
                nome_arquivo: p.nome_arquivo.clone(),
                arquivo: Some(bytes),
            },
        );
        self.next_document_id = self.next_document_id + 1;
        proof {
            let m0 = old(self)@;
            let m1 = self@;
            let dm = m1.documents.last();
            assert(m1.documents =~= m0.documents.push(dm));
            assert(dm =~= new_document_model(
                m0.next_document_id,
                p@,
                d,
                b64_decoded(p@.arquivo_base64)->Some_0,
            ));
            assert(m1 =~= create_document_spec(m0, p@).0);
            lemma_wf_after_document_push(m0, m1, dm);
        }
        Ok(id)
    }

    /// Replace the document with the id in the payload; an omitted file
    /// keeps the stored content.
    pub fn update_document(&mut self, p: &DocumentUpdatePayload) -> (r: Result<(), GatewayError>)
        requires
            old(self).wf(),
        ensures
            final(self).wf(),
            final(self)@ == update_document_spec(old(self)@, p@).0,
            r == update_document_spec(old(self)@, p@).1,
    {
        let d = match parse_date(p.data_envio.as_str()) {
            Some(d) => d,
            None => {
                return Err(GatewayError::InvalidDate(Field::DataEnvio));
            },
        };
        let new_bytes: Option<Vec<u8>> = match &p.arquivo_base64 {
            Some(s) => {
                match b64_decode(s.as_str()) {
                    Some(b) => Some(b),
                    None => {
                        return Err(GatewayError::Validation(Field::ArquivoBase64));
                    },
                }
            },
            None => None,
        };
        if !self.has_case(p.id_caso) {
            return Err(GatewayError::ReferencedEntityMissing(Field::IdCaso));
        }
        let i = match self.document_pos(p.id) {
            Some(i) => i,
            None => {
                return Err(GatewayError::NotFound);
            },
        };
        let ghost m0 = self@;
        let arquivo: Option<Vec<u8>> = match new_bytes {
            Some(b) => Some(b),
            None => {
                match &self.documents[i].arquivo {
                    Some(b) => Some(b.clone()),
                    None => None,
                }
            },
        };
        let newd = DocumentRec {
            id: p.id,
            id_caso: p.id_caso,
            descricao: p.descricao.clone(),
            data_envio: Some(d),
            nome_arquivo: p.nome_arquivo.clone(),
            arquivo,
        };
        self.documents.remove(i);
        self.documents.insert(i, newd);
        proof {
            let m1 = self@;
            let dm = m1.documents[i as int];
            assert(m1.documents =~= m0.documents.update(i as int, dm));
            assert(m1 =~= update_document_spec(m0, p@).0);
            lemma_wf_after_document_update(m0, m1, p.id, i as int, dm);
        }
        Ok(())
    }

    /// Delete a document by id, or nothing.
    pub fn delete_document(&mut self, id: i32) -> (r: Result<(), GatewayError>)
        requires
            old(self).wf(),
        ensures
            final(self).wf(),
            final(self)@ == delete_document_spec(old(self)@, id).0,
            r == delete_document_spec(old(self)@, id).1,
    {
        let i = match self.document_pos(id) {
            Some(i) => i,
            None => {
                return Err(GatewayError::NotFound);
            },
        };
        let ghost m0 = self@;
        self.documents.remove(i);
        proof {
            let m1 = self@;
            assert(m1.documents =~= m0.documents.remove(i as int));
            assert(m1 =~= delete_document_spec(m0, id).0);
            lemma_wf_after_document_remove(m0, m1, id, i as int);
        }
        Ok(())
    }

    /// Serve a document's stored bytes: exactly the content that was
    /// attached, under a content type guessed from the stored file name and
    /// an attachment disposition naming that file.
    pub fn download_document(&self, id: i32) -> (r: Result<DownloadFile, DownloadError>)
        requires
            self.wf(),
        ensures
            (r matches Ok(f) ==> download_spec(self@, id) matches Ok(nb) && f.nome_arquivo@ == nb.0
                && f.bytes@ == nb.1 && f.content_type@ == mime_for(nb.0)
                && f.content_disposition@ == disposition_of(nb.0)),
            (r matches Ok(f) ==> f.content_type@ == "application/octet-stream"@ || exists|i: int|
                0 <= i < f.nome_arquivo@.len() && f.nome_arquivo@[i] == '.'),
            (r matches Err(e) ==> download_spec(self@, id) matches Err(e2) && e == e2),
    {
        let i = match self.document_pos(id) {
            Some(i) => i,
            None => {
                return Err(DownloadError::DocumentNotFound);
            },
        };
        let nome = self.documents[i].nome_arquivo.clone();
        let bytes = match &self.documents[i].arquivo {
            Some(b) => b.clone(),
            None => {
                return Err(DownloadError::ContentMissing);
            },
        };
        let content_type = guess_mime(nome.as_str());
        let mut disposition = String::from_str("attachment; filename=\"");
        disposition.append(nome.as_str());
        disposition.append("\"");
        let ghost nview = nome@;
        let file = DownloadFile {
            nome_arquivo: nome,
            content_type,
            content_disposition: disposition,
            bytes,
        };
        proof {
            assert(file.nome_arquivo@ == nview);
            if file.content_type@ != "application/octet-stream"@ {
                let w = choose|i: int| 0 <= i < nview.len() && nview[i] == '.';
                assert(file.nome_arquivo@[w] == '.');
            }
        }
        Ok(file)
    }
}

} // verus!

//! Document question-answering: find the bytes of a stored document by file
//! name or id, and build the exact prompt the route hands to the external
//! generation service. Reading text out of those bytes is outside work that
//! the shell performs; the library takes the extraction's outcome as an
//! argument and is verified for every value of it.

use vstd::prelude::*;
use crate::domain::DocumentModel;
use crate::store::{Database, DbModel};
use crate::text::str_eq;

verus! {

/// The JSON body of a generation request.
#[derive(Debug)]
pub struct OllamaGenerateRequest {
    pub file_name: String,
    pub question: String,
    pub model: String,
}

/// The body that the generation service answers with.
#[derive(Debug)]
pub struct OllamaRawGenerateResponse {
    pub response: String,
}

/// One selectable model of the generation service, shaped for the page.
#[derive(Debug)]
pub struct ModelOption {
    pub id: String,
    pub nome: String,
}

/// Why a question about a document could not be prepared.
#[derive(Debug, Clone, Copy, PartialEq, Eq, Structural)]
pub enum QaError {
    /// No document carries the name (or, by id, the id).
    DocumentNotFound,
    /// The metadata row exists but holds no bytes.
    ContentMissing,
    /// More than one document carries the name; the single-row fetch
    /// refuses it.
    AmbiguousName,
    /// No text came out of the stored bytes.
    Extraction,
}

/// The documents whose stored file name is exactly `name`, in order.
pub open spec fn hits_of(docs: Seq<DocumentModel>, name: Seq<char>) -> Seq<DocumentModel>
    decreases docs.len(),
{
    if docs.len() == 0 {
        Seq::empty()
    } else {
        let rest = hits_of(docs.drop_last(), name);
        if docs.last().nome_arquivo == name {
            rest.push(docs.last())
        } else {
            rest
        }
    }
}

/// What fetching a document's bytes by file name yields: the single match's
/// content, or the reason there is none.
pub open spec fn find_document_spec(m: DbModel, name: Seq<char>) -> Result<Seq<u8>, QaError> {
    let hits = hits_of(m.documents, name);
    if hits.len() == 0 {
        Err(QaError::DocumentNotFound)
    } else if hits.len() > 1 {
        Err(QaError::AmbiguousName)
    } else {
        match hits[0].arquivo {
            None => Err(QaError::ContentMissing),
            Some(b) => Ok(b),
        }
    }
}

/// What fetching a document's bytes by id yields.
pub open spec fn document_content_spec(m: DbModel, id: i32) -> Result<Seq<u8>, QaError> {
    if !m.has_document(id) {
        Err(QaError::DocumentNotFound)
    } else {
        match m.documents[m.document_idx(id)].arquivo {
            None => Err(QaError::ContentMissing),
            Some(b) => Ok(b),
        }
    }
}

/// The prompt handed to the generation service, around the extracted text
/// and the user's question.
pub open spec fn prompt_of(text: Seq<char>, question: Seq<char>) -> Seq<char> {
    "Com base no seguinte documento, responda à pergunta do usuário. Se a informação não estiver no documento, diga que não pode responder.\n\nDocumento:\n```\n"@
        + text + "\n```\n\nPergunta do Usuário: "@ + question
}

impl Database {
    /// The stored bytes of the single document with this file name.
    pub fn find_document_by_name(&self, name: &str) -> (r: Result<Vec<u8>, QaError>)
        requires
            self.wf(),
        ensures
            (r matches Ok(b) ==> find_document_spec(self@, name@) matches Ok(bs) && b@ == bs),
            (r matches Err(e) ==> find_document_spec(self@, name@) matches Err(e2) && e == e2),
    {
        let mut i: usize = 0;
        let mut count: usize = 0;
        let mut first: usize = 0;
        proof {
            assert(self@.documents.subrange(0, 0) =~= Seq::<DocumentModel>::empty());
            assert(hits_of(Seq::<DocumentModel>::empty(), name@) =~= Seq::<
                DocumentModel,
            >::empty());
        }
        while i < self.documents.len()
            invariant
                self.wf(),
                0 <= i <= self.documents@.len(),
                count == hits_of(self@.documents.subrange(0, i as int), name@).len(),
                count <= i,
                count >= 1 ==> first < i && hits_of(self@.documents.subrange(0, i as int), name@)[0]
                    == self@.documents[first as int],
            decreases self.documents@.len() - i,
        {
            let ghost pre = self@.documents.subrange(0, i as int);
            let matched = str_eq(self.documents[i].nome_arquivo.as_str(), name);
            proof {
                assert(self@.documents.subrange(0, i + 1 as int) =~= pre.push(
                    self@.documents[i as int],
                ));
                assert(pre.push(self@.documents[i as int]).drop_last() =~= pre);
                assert(matched == (self@.documents[i as int].nome_arquivo == name@));
            }
            if matched {
                if count == 0 {
                    first = i;
                }
                count = count + 1;
                proof {
                    assert(hits_of(self@.documents.subrange(0, i + 1 as int), name@) =~= hits_of(
                        pre,
                        name@,
                    ).push(self@.documents[i as int]));
                }
            } else {
                proof {
                    assert(hits_of(self@.documents.subrange(0, i + 1 as int), name@) =~= hits_of(
                        pre,
                        name@,
                    ));
                }
            }
            i += 1;
        }
        proof {
            assert(self@.documents.subrange(0, self@.documents.len() as int) =~= self@.documents);
        }
        if count == 0 {
            Err(QaError::DocumentNotFound)
        } else if count > 1 {
            Err(QaError::AmbiguousName)
        } else {
            match &self.documents[first].arquivo {
                Some(b) => Ok(b.clone()),
                None => Err(QaError::ContentMissing),
            }
        }
    }

    /// The stored bytes of the document with this id.
    pub fn document_content(&self, id: i32) -> (r: Result<Vec<u8>, QaError>)
        requires
            self.wf(),
        ensures
            (r matches Ok(b) ==> document_content_spec(self@, id) matches Ok(bs) && b@ == bs),
            (r matches Err(e) ==> document_content_spec(self@, id) matches Err(e2) && e == e2),
    {
        let i = match self.document_pos(id) {
            Some(i) => i,
            None => {
                return Err(QaError::DocumentNotFound);
            },
        };
        match &self.documents[i].arquivo {
            Some(b) => Ok(b.clone()),
            None => Err(QaError::ContentMissing),
        }
    }
}

/// Build the generation prompt from the outcome of the text extraction: the
/// exact template around the text and the question, or the extraction
/// failure where no text came out.
pub fn generation_prompt(extracted: &Option<String>, question: &str) -> (r: Result<
    String,
    QaError,
>)
    ensures
        (r matches Ok(p) ==> *extracted matches Some(t) && p@ == prompt_of(t@, question@)),
        (r matches Err(e) ==> extracted is None && e == QaError::Extraction),
{
    let text = match extracted {
        Some(t) => t,
        None => {
            return Err(QaError::Extraction);
        },
    };
    let mut prompt = String::from_str(
        "Com base no seguinte documento, responda à pergunta do usuário. Se a informação não estiver no documento, diga que não pode responder.\n\nDocumento:\n```\n",
    );
    prompt.append(text.as_str());
    prompt.append("\n```\n\nPergunta do Usuário: ");
    prompt.append(question);
    Ok(prompt)
}

/// Shape the model names of the generation service for the page: each name
/// serves as both value and label.
pub fn model_options(names: &Vec<String>) -> (r: Vec<ModelOption>)
    ensures
        r@.len() == names@.len(),
        forall|i: int|
            0 <= i < r@.len() ==> (#[trigger] r@[i]).id@ == names@[i]@ && r@[i].nome@
                == names@[i]@,
{
    let mut r: Vec<ModelOption> = Vec::new();
    let mut i: usize = 0;
    while i < names.len()
        invariant
            0 <= i <= names@.len(),
            r@.len() == i,
            forall|k: int|
                0 <= k < i ==> (#[trigger] r@[k]).id@ == names@[k]@ && r@[k].nome@ == names@[k]@,
        decreases names@.len() - i,
    {
        r.push(ModelOption { id: names[i].clone(), nome: names[i].clone() });
        i += 1;
    }
    r
}

} // verus!

//! A loan of one book to one user, with its return state.

use vstd::prelude::*;

verus! {

/// A loan record: who borrowed which book and when; `data_devolucao` is set
/// exactly when the book came back.
#[derive(Debug)]
pub struct Emprestimo {
    pub id: u32,
    pub usuario_id: u32,
    pub livro_id: u32,
    pub data_emprestimo: String,
    pub data_devolucao: Option<String>,
}

impl DeepView for Emprestimo {
    type V = Emprestimo;

    open spec fn deep_view(&self) -> Emprestimo {
        *self
    }
}

impl Clone for Emprestimo {
    fn clone(&self) -> (r: Self)
        ensures
            r == *self,
    {
        Emprestimo {
            id: self.id,
            usuario_id: self.usuario_id,
            livro_id: self.livro_id,
            data_emprestimo: self.data_emprestimo.clone(),
            data_devolucao: match &self.data_devolucao {
                Some(d) => Some(d.clone()),
                None => None,
            },
        }
    }
}

impl Emprestimo {
    /// Opens a loan: not yet returned.
    pub fn novo(id: u32, usuario_id: u32, livro_id: u32, data: String) -> (r: Emprestimo)
        ensures
            r == (Emprestimo {
                id,
                usuario_id,
                livro_id,
                data_emprestimo: data,
                data_devolucao: None,
            }),
    {
        Emprestimo { id, usuario_id, livro_id, data_emprestimo: data, data_devolucao: None }
    }

    /// Records the return date.
    pub fn devolver(&mut self, data: String)
        ensures
            *final(self) == (Emprestimo { data_devolucao: Some(data), ..*old(self) }),
    {
        self.data_devolucao = Some(data);
    }

    /// Whether the book has come back.
    pub fn foi_devolvido(&self) -> (r: bool)
        ensures
            r == (self.data_devolucao is Some),
    {
        self.data_devolucao.is_some()
    }
}

} // verus!

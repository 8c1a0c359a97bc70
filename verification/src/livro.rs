//! A book of the community library and its own lending transitions.

use vstd::prelude::*;

use vstd::string::StringExecFns;

verus! {

/// A book record; `disponivel` tells whether it can be lent right now.
#[derive(Debug)]
pub struct Livro {
    pub id: u32,
    pub titulo: String,
    pub autor: String,
    pub ano: u32,
    pub disponivel: bool,
}

impl DeepView for Livro {
    type V = Livro;

    open spec fn deep_view(&self) -> Livro {
        *self
    }
}

/// What a book record must satisfy to be created: nonempty title and author,
/// and a plausible year.
pub open spec fn livro_valido(titulo: Seq<char>, autor: Seq<char>, ano: u32) -> bool {
    &&& titulo.len() > 0
    &&& autor.len() > 0
    &&& 1000 <= ano <= 2100
}

impl Clone for Livro {
    fn clone(&self) -> (r: Self)
        ensures
            r == *self,
    {
        Livro {
            id: self.id,
            titulo: self.titulo.clone(),
            autor: self.autor.clone(),
            ano: self.ano,
            disponivel: self.disponivel,
        }
    }
}

impl Livro {
    /// Creates a book, available for lending; rejects an empty title, an
    /// empty author, and a year outside 1000..=2100, in that order.
    pub fn novo(id: u32, titulo: String, autor: String, ano: u32) -> (r: Result<Livro, String>)
        ensures
            match r {
                Ok(l) => {
                    &&& livro_valido(titulo@, autor@, ano)
                    &&& l.id == id
                    &&& l.titulo@ == titulo@
                    &&& l.autor@ == autor@
                    &&& l.ano == ano
                    &&& l.disponivel
                },
                Err(e) => {
                    &&& !livro_valido(titulo@, autor@, ano)
                    &&& if titulo@.len() == 0 {
                        e@ == "Título não pode ser vazio"@
                    } else if autor@.len() == 0 {
                        e@ == "Autor não pode ser vazio"@
                    } else {
                        e@ == "Ano inválido"@
                    }
                },
            },
    {
        if titulo.as_str().is_empty() {
            return Err(String::from_str("Título não pode ser vazio"));
        }
        if autor.as_str().is_empty() {
            return Err(String::from_str("Autor não pode ser vazio"));
        }
        if ano < 1000 || ano > 2100 {
            return Err(String::from_str("Ano inválido"));
        }
        Ok(Livro { id, titulo, autor, ano, disponivel: true })
    }

    /// Marks the book lent out; fails, changing nothing, when it already is.
    pub fn emprestar(&mut self) -> (r: Result<(), String>)
        ensures
            match r {
                Ok(()) => {
                    &&& old(self).disponivel
                    &&& *final(self) == (Livro { disponivel: false, ..*old(self) })
                },
                Err(e) => {
                    &&& !old(self).disponivel
                    &&& *final(self) == *old(self)
                    &&& e@ == "Livro já está emprestado"@
                },
            },
    {
        if !self.disponivel {
            return Err(String::from_str("Livro já está emprestado"));
        }
        self.disponivel = false;
        Ok(())
    }

    /// Marks the book available again.
    pub fn devolver(&mut self)
        ensures
            *final(self) == (Livro { disponivel: true, ..*old(self) }),
    {
        self.disponivel = true;
    }
}

} // verus!

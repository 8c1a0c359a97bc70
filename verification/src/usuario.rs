//! A registered user of the community library.

use vstd::prelude::*;

use vstd::string::StringExecFns;

use crate::validacao::{valid_cpf, validar_cpf};

verus! {

/// A user record.
#[derive(Debug)]
pub struct Usuario {
    pub id: u32,
    pub nome: String,
    pub cpf: String,
}

impl DeepView for Usuario {
    type V = Usuario;

    open spec fn deep_view(&self) -> Usuario {
        *self
    }
}

impl Clone for Usuario {
    fn clone(&self) -> (r: Self)
        ensures
            r == *self,
    {
        Usuario { id: self.id, nome: self.nome.clone(), cpf: self.cpf.clone() }
    }
}

impl Usuario {
    /// Creates a user; rejects an empty name, then a CPF that fails the
    /// simplified CPF rule.
    pub fn novo(id: u32, nome: String, cpf: String) -> (r: Result<Usuario, String>)
        ensures
            match r {
                Ok(u) => {
                    &&& nome@.len() > 0
                    &&& valid_cpf(cpf@)
                    &&& u.id == id
                    &&& u.nome@ == nome@
                    &&& u.cpf@ == cpf@
                },
                Err(e) => {
                    &&& !(nome@.len() > 0 && valid_cpf(cpf@))
                    &&& if nome@.len() == 0 {
                        e@ == "Nome não pode ser vazio"@
                    } else {
                        e@ == "CPF inválido"@
                    }
                },
            },
    {
        if nome.as_str().is_empty() {
            return Err(String::from_str("Nome não pode ser vazio"));
        }
        if !validar_cpf(cpf.as_str()) {
            return Err(String::from_str("CPF inválido"));
        }
        Ok(Usuario { id, nome, cpf })
    }
}

} // verus!

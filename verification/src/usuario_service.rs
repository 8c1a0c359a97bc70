//! The user register: owns the users, allocates their ids, and refuses a CPF
//! registered twice.

use vstd::prelude::*;

use vstd::string::StringExecFns;

use crate::usuario::Usuario;
use crate::validacao::valid_cpf;

verus! {

/// The mathematical state of the register.
pub struct UsuarioServiceV {
    pub usuarios: Seq<Usuario>,
    pub proximo_id: u32,
}

/// Register invariant: ids pairwise distinct and below the allocator's next
/// value.
pub open spec fn usuario_service_wf(s: UsuarioServiceV) -> bool {
    &&& s.proximo_id >= 1
    &&& forall|i: int| 0 <= i < s.usuarios.len() ==> (#[trigger] s.usuarios[i]).id < s.proximo_id
    &&& forall|i: int, j: int|
        0 <= i < j < s.usuarios.len() ==> s.usuarios[i].id != s.usuarios[j].id
}

/// Some user in `us` carries the id.
pub open spec fn contains_usuario(us: Seq<Usuario>, id: u32) -> bool {
    exists|i: int| 0 <= i < us.len() && us[i].id == id
}

/// The position of the user with the id (unique under the invariant).
pub open spec fn index_of_usuario(us: Seq<Usuario>, id: u32) -> int {
    choose|i: int| 0 <= i < us.len() && us[i].id == id
}

/// Some user in `us` is registered under this CPF.
pub open spec fn contains_cpf(us: Seq<Usuario>, cpf: Seq<char>) -> bool {
    exists|i: int| 0 <= i < us.len() && us[i].cpf@ == cpf
}

/// Under distinct ids, any position holding `id` is the position `choose`
/// picks.
pub proof fn lemma_usuario_index_unique(us: Seq<Usuario>, id: u32, k: int)
    requires
        forall|i: int, j: int| 0 <= i < j < us.len() ==> us[i].id != us[j].id,
        0 <= k < us.len(),
        us[k].id == id,
    ensures
        contains_usuario(us, id),
        index_of_usuario(us, id) == k,
{
    assert(contains_usuario(us, id));
    let i = index_of_usuario(us, id);
    if i < k {
        assert(us[i].id != us[k].id);
    } else if k < i {
        assert(us[k].id != us[i].id);
    }
}

/// Manages the users of the library.
pub struct UsuarioService {
    usuarios: Vec<Usuario>,
    proximo_id: u32,
}

impl View for UsuarioService {
    type V = UsuarioServiceV;

    closed spec fn view(&self) -> UsuarioServiceV {
        UsuarioServiceV { usuarios: self.usuarios@, proximo_id: self.proximo_id }
    }
}

impl UsuarioService {
    /// An empty register.
    pub fn novo() -> (s: UsuarioService)
        ensures
            s@.usuarios == Seq::<Usuario>::empty(),
            s@.proximo_id == 1,
            usuario_service_wf(s@),
    {
        let s = UsuarioService { usuarios: Vec::new(), proximo_id: 1 };
        proof {
            assert(s@.usuarios =~= Seq::<Usuario>::empty());
        }
        s
    }

    /// Registers a user under a fresh id and returns the id. Fails, changing
    /// nothing, on a CPF already registered, then on a record that
    /// `Usuario::novo` rejects.
    pub fn cadastrar(&mut self, nome: String, cpf: String) -> (r: Result<u32, String>)
        requires
            usuario_service_wf(old(self)@),
            old(self)@.proximo_id < u32::MAX,
        ensures
            usuario_service_wf(final(self)@),
            match r {
                Ok(id) => {
                    &&& !contains_cpf(old(self)@.usuarios, cpf@)
                    &&& nome@.len() > 0
                    &&& valid_cpf(cpf@)
                    &&& id == old(self)@.proximo_id
                    &&& final(self)@.proximo_id == old(self)@.proximo_id + 1
                    &&& final(self)@.usuarios.len() == old(self)@.usuarios.len() + 1
                    &&& final(self)@.usuarios == old(self)@.usuarios.push(
                        final(self)@.usuarios.last(),
                    )
                    &&& final(self)@.usuarios.last().id == id
                    &&& final(self)@.usuarios.last().nome@ == nome@
                    &&& final(self)@.usuarios.last().cpf@ == cpf@
                },
                Err(e) => {
                    &&& final(self)@ == old(self)@
                    &&& if contains_cpf(old(self)@.usuarios, cpf@) {
                        e@ == "CPF já cadastrado"@
                    } else if nome@.len() == 0 {
                        e@ == "Nome não pode ser vazio"@
                    } else {
                        !valid_cpf(cpf@) && e@ == "CPF inválido"@
                    }
                },
            },
    {
        let mut k: usize = 0;
        while k < self.usuarios.len()
            invariant
                self@ == old(self)@,
                usuario_service_wf(self@),
                k <= self@.usuarios.len(),
                self@.usuarios.len() == self.usuarios.len(),
                forall|i: int| 0 <= i < k ==> (#[trigger] self@.usuarios[i]).cpf@ != cpf@,
            decreases self.usuarios.len() - k,
        {
            if self.usuarios[k].cpf == cpf {
                proof {
                    assert(contains_cpf(self@.usuarios, cpf@));
                }
                return Err(String::from_str("CPF já cadastrado"));
            }
            k = k + 1;
        }
        let id = self.proximo_id;
        let usuario = match Usuario::novo(id, nome, cpf) {
            Ok(u) => u,
            Err(e) => {
                return Err(e);
            },
        };
        let ghost gu = usuario;
        self.usuarios.push(usuario);
        self.proximo_id = self.proximo_id + 1;
        proof {
            assert(self@.usuarios == old(self)@.usuarios.push(gu));
            assert forall|i: int|
                0 <= i < self@.usuarios.len() implies (#[trigger] self@.usuarios[i]).id
                < self@.proximo_id by {
                if i < old(self)@.usuarios.len() {
                    assert(self@.usuarios[i] == old(self)@.usuarios[i]);
                } else {
                    assert(self@.usuarios[i] == gu);
                }
            }
            assert forall|i: int, j: int|
                0 <= i < j < self@.usuarios.len() implies self@.usuarios[i].id
                != self@.usuarios[j].id by {
                assert(self@.usuarios[i] == old(self)@.usuarios[i]);
                if j < old(self)@.usuarios.len() {
                    assert(self@.usuarios[j] == old(self)@.usuarios[j]);
                } else {
                    assert(self@.usuarios[j] == gu);
                }
            }
        }
        Ok(id)
    }

    /// The user carrying `id`, if any.
    pub fn buscar(&self, id: u32) -> (r: Option<&Usuario>)
        requires
            usuario_service_wf(self@),
        ensures
            match r {
                Some(u) => {
                    &&& contains_usuario(self@.usuarios, id)
                    &&& *u == self@.usuarios[index_of_usuario(self@.usuarios, id)]
                    &&& u.id == id
                },
                None => !contains_usuario(self@.usuarios, id),
            },
    {
        let mut k: usize = 0;
        while k < self.usuarios.len()
            invariant
                usuario_service_wf(self@),
                k <= self@.usuarios.len(),
                self@.usuarios.len() == self.usuarios.len(),
                forall|i: int| 0 <= i < k ==> (#[trigger] self@.usuarios[i]).id != id,
            decreases self.usuarios.len() - k,
        {
            if self.usuarios[k].id == id {
                proof {
                    lemma_usuario_index_unique(self@.usuarios, id, k as int);
                }
                return Some(&self.usuarios[k]);
            }
            k = k + 1;
        }
        None
    }

    /// Every user, in registration order.
    pub fn listar(&self) -> (r: Vec<&Usuario>)
        ensures
            r.deep_view() == self@.usuarios,
    {
        let mut r: Vec<&Usuario> = Vec::new();
        let mut k: usize = 0;
        while k < self.usuarios.len()
            invariant
                k <= self.usuarios.len(),
                r.deep_view() == self@.usuarios.take(k as int),
            decreases self.usuarios.len() - k,
        {
            let ghost pre = r.deep_view();
            r.push(&self.usuarios[k]);
            proof {
                assert(r.deep_view() =~= pre.push(self@.usuarios[k as int]));
                assert(pre.push(self@.usuarios[k as int]) =~= self@.usuarios.take(k + 1 as int));
            }
            k = k + 1;
        }
        proof {
            assert(self@.usuarios.take(self.usuarios.len() as int) =~= self@.usuarios);
        }
        r
    }
}

} // verus!

use vstd::prelude::*;

verus! {

/// The closed set of principal kinds. Every token and every secret domain is
/// scoped to exactly one of these.
#[derive(Clone, Copy, Debug, PartialEq, Eq, Structural)]
pub enum Role {
    Adventurer,
    GuildCommander,
}

/// The canonical name of a role, as it appears in a token's claims.
pub open spec fn spec_role_name(role: Role) -> Seq<u8> {
    match role {
        Role::Adventurer => seq![
            'A' as u8, 'd' as u8, 'v' as u8, 'e' as u8, 'n' as u8, 't' as u8, 'u' as u8, 'r' as u8, 'e' as u8, 'r' as u8,
        ],
        Role::GuildCommander => seq![
            'G' as u8, 'u' as u8, 'i' as u8, 'l' as u8, 'd' as u8, 'C' as u8, 'o' as u8, 'm' as u8, 'm' as u8, 'a' as u8, 'n' as u8, 'd' as u8, 'e' as u8, 'r' as u8,
        ],
    }
}

impl Role {
    /// The canonical name of this role as bytes.
    pub fn name_bytes(&self) -> (r: Vec<u8>)
        ensures
            r@ == spec_role_name(*self),
    {
        let mut v: Vec<u8> = Vec::new();
        match self {
            Role::Adventurer => {
                v.push('A' as u8);
                v.push('d' as u8);
                v.push('v' as u8);
                v.push('e' as u8);
                v.push('n' as u8);
                v.push('t' as u8);
                v.push('u' as u8);
                v.push('r' as u8);
                v.push('e' as u8);
                v.push('r' as u8);
            },
            Role::GuildCommander => {
                v.push('G' as u8);
                v.push('u' as u8);
                v.push('i' as u8);
                v.push('l' as u8);
                v.push('d' as u8);
                v.push('C' as u8);
                v.push('o' as u8);
                v.push('m' as u8);
                v.push('m' as u8);
                v.push('a' as u8);
                v.push('n' as u8);
                v.push('d' as u8);
                v.push('e' as u8);
                v.push('r' as u8);
            },
        }
        proof {
            assert(v@ =~= spec_role_name(*self));
        }
        v
    }
}

} // verus!

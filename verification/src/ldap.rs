//! Escaping of parameters that are spliced into an LDAP search filter.
//!
//! Covers the characters mandated by RFC 2254 section 4 and, for safety
//! against filter injection, the characters RFC 4514 section 2.4 asks to be
//! encoded.  The directory connection itself lives outside the library; only
//! the escaping is logic of its own.

use vstd::prelude::*;

use crate::strutil::push_char;

verus! {

/// What one character contributes to the escaped rendering.
pub open spec fn spec_escape_char(c: char) -> Seq<char> {
    if c == '(' {
        seq!['\\', '2', '8']
    } else if c == ')' {
        seq!['\\', '2', '9']
    } else if c == '*' {
        seq!['\\', '2', 'a']
    } else if c == '\\' {
        seq!['\\', '5', 'c']
    } else if c == '\0' {
        seq!['\\', '0', '0']
    } else if c == '"' {
        seq!['\\', '2', '2']
    } else if c == '#' {
        seq!['\\', '2', '3']
    } else if c == '+' {
        seq!['\\', '2', 'b']
    } else if c == ',' {
        seq!['\\', '2', 'c']
    } else if c == ';' {
        seq!['\\', '3', 'b']
    } else if c == '<' {
        seq!['\\', '3', 'c']
    } else if c == '=' {
        seq!['\\', '3', 'd']
    } else if c == '>' {
        seq!['\\', '3', 'e']
    } else if c == '|' {
        seq!['\\', '7', 'c']
    } else if c == ' ' {
        seq!['\\', '2', '0']
    } else {
        seq![c]
    }
}

/// The escaped rendering of a whole string.
pub open spec fn spec_escape(s: Seq<char>) -> Seq<char>
    decreases s.len(),
{
    if s.len() == 0 {
        Seq::empty()
    } else {
        spec_escape(s.drop_last()) + spec_escape_char(s.last())
    }
}

fn push_escape_pair(res: &mut String, a: char, b: char)
    ensures
        final(res)@ == old(res)@ + seq!['\\', a, b],
{
    push_char(res, '\\');
    push_char(res, a);
    push_char(res, b);
    assert(res@ =~= old(res)@ + seq!['\\', a, b]);
}

/// A user as the directory lookup answers it.
#[derive(Debug, PartialEq, Eq)]
pub struct User {
    /// The full distinguished name used in the directory.
    pub ldap_dn: String,
    /// The account name, taken from the directory's `uid` attribute.
    pub username: String,
}

/// The failures a directory lookup distinguishes.
#[derive(Debug, PartialEq, Eq)]
pub enum LDAPError {
    CannotConnect,
    CannotUnbind,
    CannotBind,
    CannotSearch,
    UserError,
    MultipleUsersWithSameUid(String),
    AttributeMissing(String),
    NotExactlyOneOfAttribute(String),
}

/// One entry of a directory search result: its distinguished name and the
/// values of the one requested attribute, absent when the entry does not
/// carry the attribute at all.
#[derive(Debug, PartialEq, Eq)]
pub struct DirectoryEntry {
    pub dn: String,
    pub uid_values: Option<Vec<String>>,
}

/// The search filter that finds one user: the configured user filter,
/// conjoined with a `uid` match on the escaped account name.
pub fn build_user_search_filter(user_filter: &str, id: &str) -> (r: String)
    ensures
        r@ == "(&("@ + user_filter@ + ")(uid="@ + spec_escape(id@) + "))"@,
{
    let mut res = String::new();
    res.append("(&(");
    res.append(user_filter);
    res.append(")(uid=");
    let escaped = escape_ldap_search_filter_parameter(id);
    res.append(escaped.as_str());
    res.append("))");
    res
}

/// Read a user out of what the directory search for `id` answered.
///
/// No entry means no such user.  More than one entry for a single account
/// name, a missing `uid` attribute, and an attribute that does not hold
/// exactly one value are each surfaced as their own error, never papered
/// over.
pub fn interpret_user_search(id: &str, entries: Vec<DirectoryEntry>) -> (r: Result<
    Option<User>,
    LDAPError,
>)
    ensures
        entries@.len() == 0 ==> r == Result::<Option<User>, LDAPError>::Ok(None),
        entries@.len() > 1 ==> (r matches Err(e) && e matches
            LDAPError::MultipleUsersWithSameUid(n) && n@ == id@),
        entries@.len() == 1 ==> match entries@[0].uid_values {
            None => r matches Err(e) && e matches LDAPError::AttributeMissing(a) && a@ == "uid"@,
            Some(uids) => {
                if uids@.len() != 1 {
                    r matches Err(e) && e matches LDAPError::NotExactlyOneOfAttribute(a) && a@
                        == "uid"@
                } else {
                    r matches Ok(u) && u matches Some(user) && user.ldap_dn == entries@[0].dn
                        && user.username == uids@[0]
                }
            },
        },
{
    if entries.len() == 0 {
        return Ok(None);
    }
    if entries.len() != 1 {
        return Err(LDAPError::MultipleUsersWithSameUid(id.to_owned()));
    }
    let mut entries = entries;
    let entry = match entries.pop() {
        Some(e) => e,
        None => {
            proof {
                assert(false);
            }
            return Ok(None);
        },
    };
    let mut uids = match entry.uid_values {
        Some(v) => v,
        None => {
            return Err(LDAPError::AttributeMissing("uid".to_owned()));
        },
    };
    if uids.len() != 1 {
        return Err(LDAPError::NotExactlyOneOfAttribute("uid".to_owned()));
    }
    let uid = match uids.pop() {
        Some(u) => u,
        None => {
            proof {
                assert(false);
            }
            return Err(LDAPError::NotExactlyOneOfAttribute("uid".to_owned()));
        },
    };
    Ok(Some(User { ldap_dn: entry.dn, username: uid }))
}

/// Escape a parameter such that it may be used in a search filter.
pub fn escape_ldap_search_filter_parameter(parameter: &str) -> (r: String)
    ensures
        r@ == spec_escape(parameter@),
{
    let mut res = String::new();
    let chars_it = parameter.chars();
    for c in it: chars_it
        invariant
            it.seq() == parameter@,
            res@ == spec_escape(it.seq().subrange(0, it.index() as int)),
    {
        proof {
            let prefix = it.seq().subrange(0, it.index() as int);
            let next_prefix = it.seq().subrange(0, it.index() as int + 1);
            assert(next_prefix.drop_last() =~= prefix);
            assert(next_prefix.last() == c);
        }
        match c {
            '(' => push_escape_pair(&mut res, '2', '8'),
            ')' => push_escape_pair(&mut res, '2', '9'),
            '*' => push_escape_pair(&mut res, '2', 'a'),
            '\\' => push_escape_pair(&mut res, '5', 'c'),
            '\0' => push_escape_pair(&mut res, '0', '0'),
            '"' => push_escape_pair(&mut res, '2', '2'),
            '#' => push_escape_pair(&mut res, '2', '3'),
            '+' => push_escape_pair(&mut res, '2', 'b'),
            ',' => push_escape_pair(&mut res, '2', 'c'),
            ';' => push_escape_pair(&mut res, '3', 'b'),
            '<' => push_escape_pair(&mut res, '3', 'c'),
            '=' => push_escape_pair(&mut res, '3', 'd'),
            '>' => push_escape_pair(&mut res, '3', 'e'),
            '|' => push_escape_pair(&mut res, '7', 'c'),
            ' ' => push_escape_pair(&mut res, '2', '0'),
            x => push_char(&mut res, x),
        }
        assert(res@ =~= spec_escape(it.seq().subrange(0, it.index() as int + 1)));
    }
    proof {
        assert(parameter@.subrange(0, parameter@.len() as int) =~= parameter@);
    }
    res
}

} // verus!

//! Saved people: the usernames an account has shared with, kept on the device.
use crate::model::{copy_strings, is_listed, listed, distinct_names, login_ok, strings, valid_login, ChatModel};
use crate::storage::{Store, StoreModel};
use crate::text::{eq_ignore_case, same_name};
use vstd::prelude::*;

verus! {

/// A username worth saving for the account `login`: a valid login other than its own.
pub open spec fn contact_ok(login: Seq<char>, name: Seq<char>) -> bool {
    login_ok(name) && !same_name(name, login)
}

/// `contacts` after offering `name`: appended when acceptable and not saved yet, ignoring
/// ASCII case.
pub open spec fn offered(contacts: Seq<Seq<char>>, login: Seq<char>, name: Seq<char>) -> Seq<Seq<char>> {
    if contact_ok(login, name) && !listed(contacts, name) {
        contacts.push(name)
    } else {
        contacts
    }
}

/// `contacts` after offering each of `names` in order.
pub open spec fn with_contacts(contacts: Seq<Seq<char>>, login: Seq<char>, names: Seq<Seq<char>>) -> Seq<Seq<char>>
    decreases names.len(),
{
    if names.len() == 0 {
        contacts
    } else {
        offered(with_contacts(contacts, login, names.drop_last()), login, names.last())
    }
}

/// The members of `chats`, chat after chat.
pub open spec fn all_members(chats: Seq<ChatModel>) -> Seq<Seq<char>>
    decreases chats.len(),
{
    if chats.len() == 0 {
        Seq::empty()
    } else {
        all_members(chats.drop_last()) + chats.last().members
    }
}

/// The signed-in account of a store, empty when there is none.
pub open spec fn account(s: StoreModel) -> Seq<char> {
    match s.user {
        Some(u) => u.login,
        None => Seq::empty(),
    }
}

/// Saved contacts hold only acceptable usernames, none twice (ignoring ASCII case).
pub open spec fn clean_contacts(contacts: Seq<Seq<char>>, login: Seq<char>) -> bool {
    &&& forall|i: int| 0 <= i < contacts.len() ==> contact_ok(login, #[trigger] contacts[i])
    &&& distinct_names(contacts)
}

proof fn lemma_offer_keeps_clean(contacts: Seq<Seq<char>>, login: Seq<char>, name: Seq<char>)
    requires
        clean_contacts(contacts, login),
    ensures
        clean_contacts(offered(contacts, login, name), login),
{
    if contact_ok(login, name) && !listed(contacts, name) {
        let r = contacts.push(name);
        assert forall|i: int, j: int| 0 <= i < j < r.len() implies !same_name(
            #[trigger] r[i],
            #[trigger] r[j],
        ) by {
            if j == contacts.len() {
                assert(r[i] == contacts[i]);
                if same_name(r[i], r[j]) {
                    assert(same_name(contacts[i], name));
                }
            } else {
                assert(r[i] == contacts[i] && r[j] == contacts[j]);
            }
        }
    }
}

/// Offers `name` to `contacts`.
fn offer_contact(contacts: &mut Vec<String>, login: &str, name: &String)
    ensures
        strings(final(contacts)@) == offered(strings(old(contacts)@), login@, name@),
{
    if valid_login(name.as_str()) && !eq_ignore_case(name.as_str(), login) && !is_listed(contacts, name.as_str()) {
        let ghost before = strings(contacts@);
        contacts.push(name.clone());
        assert(strings(contacts@) =~= before.push(name@));
    }
}

impl Store {
    /// Saves the usernames among `names` that are acceptable and not saved yet, in order.
    /// Saved contacts stay clean.
    pub fn remember_contacts(&mut self, names: &Vec<String>, login: &str)
        ensures
            final(self)@ == (StoreModel {
                contacts: with_contacts(old(self)@.contacts, login@, strings(names@)),
                ..old(self)@
            }),
            clean_contacts(old(self)@.contacts, login@) ==> clean_contacts(final(self)@.contacts, login@),
    {
        let ghost start = self@.contacts;
        let mut contacts = copy_strings(&self.contacts);
        let mut i: usize = 0;
        while i < names.len()
            invariant
                0 <= i <= names.len(),
                strings(contacts@) == with_contacts(start, login@, strings(names@).take(i as int)),
                clean_contacts(start, login@) ==> clean_contacts(strings(contacts@), login@),
            decreases names.len() - i,
        {
            assert(strings(names@).take(i + 1).drop_last() =~= strings(names@).take(i as int));
            proof {
                if clean_contacts(start, login@) {
                    lemma_offer_keeps_clean(strings(contacts@), login@, names@[i as int]@);
                }
            }
            offer_contact(&mut contacts, login, &names[i]);
            i += 1;
        }
        assert(strings(names@).take(names.len() as int) =~= strings(names@));
        self.contacts = contacts;
    }

    /// Contacts for a state saved before contacts were kept: the members of the stored
    /// chats, in order, except the signed-in account and invalid usernames, each once.
    pub fn derive_contacts(&mut self)
        ensures
            final(self)@ == (StoreModel {
                contacts: with_contacts(Seq::empty(), account(old(self)@), all_members(old(self)@.chats)),
                ..old(self)@
            }),
            clean_contacts(final(self)@.contacts, account(old(self)@)),
    {
        let login: String = match &self.user {
            Some(u) => u.login.clone(),
            None => String::new(),
        };
        let ghost chats = self@.chats;
        let mut contacts: Vec<String> = Vec::new();
        assert(strings(contacts@) =~= Seq::<Seq<char>>::empty());
        let mut k: usize = 0;
        while k < self.chats.len()
            invariant
                0 <= k <= self.chats.len(),
                chats == self@.chats,
                login@ == account(self@),
                strings(contacts@) == with_contacts(Seq::empty(), login@, all_members(chats.take(k as int))),
                clean_contacts(strings(contacts@), login@),
            decreases self.chats.len() - k,
        {
            let members = &self.chats[k].members;
            let ghost base = all_members(chats.take(k as int));
            let ghost ms = strings(members@);
            assert(ms == chats[k as int].members);
            let mut m: usize = 0;
            assert(base + ms.take(0) =~= base);
            while m < members.len()
                invariant
                    0 <= m <= members.len(),
                    ms == strings(members@),
                    strings(contacts@) == with_contacts(Seq::empty(), login@, base + ms.take(m as int)),
                    clean_contacts(strings(contacts@), login@),
                decreases members.len() - m,
            {
                assert((base + ms.take(m + 1)).drop_last() =~= base + ms.take(m as int));
                assert((base + ms.take(m + 1)).last() == ms[m as int]);
                proof {
                    lemma_offer_keeps_clean(strings(contacts@), login@, ms[m as int]);
                }
                offer_contact(&mut contacts, login.as_str(), &members[m]);
                m += 1;
            }
            assert(ms.take(members.len() as int) =~= ms);
            assert(chats.take(k + 1).drop_last() =~= chats.take(k as int));
            assert(chats.take(k + 1).last() == chats[k as int]);
            k += 1;
        }
        assert(chats.take(self.chats.len() as int) =~= chats);
        self.contacts = contacts;
    }
}

} // verus!

//! Which messages the program takes, asked before they are handed to it.
use vstd::prelude::*;

use super::settings::AppSettingEdit;
use super::state::{Action, App, Message, SettingsMessage};
use crate::collections::CollectionsMessage;
use crate::files::ModDetails;
use crate::library::missing::parse_child;
use crate::numbers::parse_unsigned_text;
use crate::text::same_text;
use crate::xcom_mod::ModId;
#[allow(unused_imports)]
use super::on_browse::children_have_numbers;
#[allow(unused_imports)]
use super::on_download::progress_is_defined;
#[allow(unused_imports)]
use super::settings::{is_bool_setting, is_number_setting, is_setting, is_text_setting};
#[allow(unused_imports)]
use super::update::{accepts, accepts_one, chain_step, parted, step};
#[allow(unused_imports)]
use crate::library::missing::child_number;

verus! {

fn names_text(name: &str) -> (r: bool)
    ensures
        r == is_text_setting(name@),
{
    same_text(name, "download_directory") || same_text(name, "steamcmd_command_path") || same_text(
        name,
        "steam_webapi_api_key",
    )
}

fn names_number(name: &str) -> (r: bool)
    ensures
        r == is_number_setting(name@),
{
    same_text(name, "automatic_download_retries") || same_text(name, "steam_webapi_cache_lifetime")
}

fn names_bool(name: &str) -> (r: bool)
    ensures
        r == is_bool_setting(name@),
{
    same_text(name, "check_updates_on_startup") || same_text(name, "notify_on_download_complete")
        || same_text(name, "notify_with_sound") || same_text(name, "notify_progress") || same_text(
        name,
        "reload_profile_on_launch",
    ) || same_text(name, "steamcmd_login_on_startup") || same_text(name, "steamcmd_logout_on_exit")
        || same_text(name, "steamcmd_save_password") || same_text(name, "steam_webapi_save_api_key")
}

/// Whether there is a setting of the name and kind that an edit speaks of.
pub fn names_setting(edit: &AppSettingEdit) -> (r: bool)
    ensures
        r == is_setting(*edit),
{
    match edit {
        AppSettingEdit::String(name, _) => names_text(name),
        AppSettingEdit::Number(name, _) => names_number(name),
        AppSettingEdit::Bool(name, _) => names_bool(name),
    }
}

/// What is left of a message that was not taken: those chained before it have taken
/// effect.
pub open spec fn refused(a: App, b: App, message: Message) -> bool
    decreases message,
{
    match message {
        Message::Chained(messages) => exists|n: nat, mid: App, r: Seq<Action>|
            {
                &&& n < messages@.len()
                &&& #[trigger] chain_step(a, mid, messages, n, r)
                &&& refused(mid, b, messages@[n as int])
            },
        _ => a == b && !accepts_one(a, message),
    }
}

impl App {
    fn asks_for_numbers(&self, id: &ModId) -> (r: bool)
        ensures
            r == children_have_numbers(self.index, id@),
    {
        let info = match self.index.details.get(id) {
            Some(ModDetails::Workshop(info)) => info,
            _ => return true,
        };
        let ghost all = self.index.children_of(id@);
        assert(all == info.children@);
        let mut i: usize = 0;
        while i < info.children.len()
            invariant
                0 <= i <= info.children@.len(),
                all == info.children@,
                all == self.index.children_of(id@),
                forall|j: int| 0 <= j < i ==> child_number(#[trigger] all[j]) is Some,
            decreases info.children@.len() - i,
        {
            if parse_child(&info.children[i]).is_none() {
                assert(child_number(all[i as int]) is None);
                return false;
            }
            i += 1;
        }
        true
    }

    fn can_tell_progress(&self, id: u32, size: u64) -> (r: bool)
        ensures
            r == progress_is_defined(*self, id, size),
    {
        let current = match self.downloads.ongoing_download {
            Some((current, _)) => current,
            None => return true,
        };
        if current != id || !self.settings.notify_progress {
            return true;
        }
        let total: Option<u64> = match self.index.details.get(&ModId::Workshop(id)) {
            Some(ModDetails::Workshop(info)) => parse_unsigned_text(
                info.file_size.as_str(),
                u64::MAX,
            ),
            _ => None,
        };
        match total {
            Some(total) => total != 0 && size <= u64::MAX / 100,
            None => true,
        }
    }

    /// Whether the program takes a message that stands by itself in the state that it
    /// is in.
    pub fn takes(&self, message: &Message) -> (r: bool)
        ensures
            r == accepts_one(*self, *message),
    {
        match message {
            Message::QueryFilesLoaded(_, _, _) => self.query_page_size > 1,
            Message::Collections(CollectionsMessage::QueryCollectionsLoaded(
                _,
                _,
            )) => self.query_page_size > 1,
            Message::SetViewingItem(id) => self.asks_for_numbers(id),
            Message::SteamCMDDownloadProgress(id, size) => self.can_tell_progress(*id, *size),
            Message::Settings(SettingsMessage::Edit(edit)) => names_setting(edit),
            Message::LoadRemoveLaunchArgs(i) => *i < self.save.launch_args.len(),
            _ => true,
        }
    }

    /// Tells the program of something. A message that it does not take changes nothing,
    /// and ends the chain that it stands in.
    pub fn try_update(&mut self, message: Message) -> (r: Option<Vec<Action>>)
        ensures
            match r {
                Some(actions) => step(*old(self), *final(self), message, actions@),
                None => !accepts(*old(self), message) && refused(
                    *old(self),
                    *final(self),
                    message,
                ),
            },
        decreases message,
    {
        let ghost whole = message;
        let messages = match message {
            Message::Chained(messages) => messages,
            other => {
                if self.takes(&other) {
                    return Some(self.update(other));
                }
                return None;
            },
        };
        let ghost start = *self;
        let ghost all = messages;
        let mut rest = messages;
        let mut out: Vec<Action> = Vec::new();
        let ghost mut done: nat = 0;
        assert(all@.skip(0) =~= all@);
        while rest.len() > 0
            invariant
                whole == message,
                whole == Message::Chained(all),
                start == *old(self),
                done + rest@.len() == all@.len(),
                rest@ == all@.skip(done as int),
                chain_step(start, *self, all, done, out@),
            decreases rest@.len(),
        {
            let ghost mid = *self;
            let ghost before = out@;
            assert(rest@[0] == all@[done as int]);
            let next = rest.remove(0);
            assert(rest@ =~= all@.skip(done as int + 1));
            assert(decreases_to!(whole => whole->Chained_0));
            assert(decreases_to!(all => all@));
            assert(decreases_to!(all@ => all@[done as int]));
            let mut more = match self.try_update(next) {
                Some(more) => more,
                None => {
                    assert(chain_step(start, mid, all, done, before));
                    assert(refused(mid, *self, all@[done as int]));
                    assert(!accepts(mid, all@[done as int]));
                    assert(!accepts(start, whole));
                    assert(refused(start, *self, whole));
                    return None;
                },
            };
            let ghost behind = more@;
            out.append(&mut more);
            assert(out@ =~= before + behind);
            assert(parted(mid, before, behind, out@));
            assert(step(mid, *self, all@[done as int], behind));
            proof {
                done = done + 1;
            }
            assert(chain_step(start, *self, all, done, out@));
        }
        Some(out)
    }
}

} // verus!

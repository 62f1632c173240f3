//! The texts of the user interface in two languages, and the choice between
//! them by the locale of the system.

use crate::text;
use vstd::prelude::*;

verus! {

/// The languages of the user interface.
#[derive(Debug, Clone, Copy, PartialEq, Eq, Structural)]
pub enum Lang {
    Ru,
    En,
}

/// The texts of the user interface in one language.
#[derive(Debug, Clone, Copy, PartialEq, Eq)]
pub struct Strings {
    pub connect: &'static str,
    pub cancel: &'static str,
    pub disconnect: &'static str,
    pub not_connected: &'static str,
    pub connecting: &'static str,
    pub connected: &'static str,
    pub settings: &'static str,
    pub settings_hover: &'static str,
    pub back: &'static str,
    pub servers: &'static str,
    pub add_server: &'static str,
    pub remove_server_hover: &'static str,
    pub profile_name_label: &'static str,
    pub server_label: &'static str,
    pub username_label: &'static str,
    pub password_label: &'static str,
    pub save_password_in_keychain: &'static str,
    pub save_settings: &'static str,
    pub connection_log: &'static str,
    pub fill_server_username_password: &'static str,
    pub default_server_name_prefix: &'static str,
    pub tray_status_disconnected: &'static str,
    pub tray_status_connecting: &'static str,
    pub tray_status_connected: &'static str,
    pub tray_connect: &'static str,
    pub tray_disconnect: &'static str,
    pub tray_show_window: &'static str,
    pub tray_quit: &'static str,
    pub notif_app_name: &'static str,
    pub notif_restored_after_failure: &'static str,
    pub notif_restore_failed: &'static str,
}

/// The texts in Russian.
pub open spec fn ru() -> Strings {
    Strings {
        connect: "Подключиться",
        cancel: "Отменить",
        disconnect: "Отключиться",
        not_connected: "Не подключено",
        connecting: "Подключение…",
        connected: "Подключено",
        settings: "Настройки",
        settings_hover: "Настройки",
        back: "Назад",
        servers: "Серверы",
        add_server: "+ Добавить сервер",
        remove_server_hover: "Удалить сервер",
        profile_name_label: "Имя профиля:",
        server_label: "Сервер:",
        username_label: "Логин:",
        password_label: "Пароль:",
        save_password_in_keychain: "Сохранить пароль в Keychain",
        save_settings: "Сохранить настройки",
        connection_log: "Лог подключения",
        fill_server_username_password: "Заполните сервер, логин и пароль",
        default_server_name_prefix: "Сервер",
        tray_status_disconnected: "\u{25CF} Отключено",
        tray_status_connecting: "\u{25CF} Подключение…",
        tray_status_connected: "\u{25CF} Подключено",
        tray_connect: "Подключиться",
        tray_disconnect: "Отключиться",
        tray_show_window: "Показать окно",
        tray_quit: "Выход",
        notif_app_name: "SSTP GUI",
        notif_restored_after_failure: "Восстановлен доступ в интернет после сбоя VPN",
        notif_restore_failed: "Не удалось восстановить интернет автоматически, см. лог",
    }
}

/// The texts in English.
pub open spec fn en() -> Strings {
    Strings {
        connect: "Connect",
        cancel: "Cancel",
        disconnect: "Disconnect",
        not_connected: "Not connected",
        connecting: "Connecting…",
        connected: "Connected",
        settings: "Settings",
        settings_hover: "Settings",
        back: "Back",
        servers: "Servers",
        add_server: "+ Add server",
        remove_server_hover: "Remove server",
        profile_name_label: "Profile name:",
        server_label: "Server:",
        username_label: "Username:",
        password_label: "Password:",
        save_password_in_keychain: "Save password in Keychain",
        save_settings: "Save settings",
        connection_log: "Connection log",
        fill_server_username_password: "Fill in the server, username and password",
        default_server_name_prefix: "Server",
        tray_status_disconnected: "\u{25CF} Disconnected",
        tray_status_connecting: "\u{25CF} Connecting…",
        tray_status_connected: "\u{25CF} Connected",
        tray_connect: "Connect",
        tray_disconnect: "Disconnect",
        tray_show_window: "Show Window",
        tray_quit: "Quit",
        notif_app_name: "SSTP GUI",
        notif_restored_after_failure: "Internet access restored after a VPN failure",
        notif_restore_failed: "Could not restore internet access automatically, see the log",
    }
}

impl Strings {
    /// All texts, in the order of the fields.
    pub open spec fn list(self) -> Seq<Seq<char>> {
        seq![
            self.connect@,
            self.cancel@,
            self.disconnect@,
            self.not_connected@,
            self.connecting@,
            self.connected@,
            self.settings@,
            self.settings_hover@,
            self.back@,
            self.servers@,
            self.add_server@,
            self.remove_server_hover@,
            self.profile_name_label@,
            self.server_label@,
            self.username_label@,
            self.password_label@,
            self.save_password_in_keychain@,
            self.save_settings@,
            self.connection_log@,
            self.fill_server_username_password@,
            self.default_server_name_prefix@,
            self.tray_status_disconnected@,
            self.tray_status_connecting@,
            self.tray_status_connected@,
            self.tray_connect@,
            self.tray_disconnect@,
            self.tray_show_window@,
            self.tray_quit@,
            self.notif_app_name@,
            self.notif_restored_after_failure@,
            self.notif_restore_failed@,
        ]
    }
}

/// Whether a locale, as the system reports it, is Russian: the language alone,
/// or with a region or a script behind it.
pub open spec fn is_russian(locale: Seq<char>) -> bool {
    let l = text::trimmed(locale);
    l == "ru"@ || text::starts_with(l, "ru_"@) || text::starts_with(l, "ru-"@)
}

/// The language for a locale; English where the system reports none.
pub open spec fn lang_for(locale: Option<Seq<char>>) -> Lang {
    match locale {
        Some(l) => if is_russian(l) {
            Lang::Ru
        } else {
            Lang::En
        },
        None => Lang::En,
    }
}

impl Lang {
    /// The texts in this language.
    pub open spec fn table(self) -> Strings {
        match self {
            Lang::Ru => ru(),
            Lang::En => en(),
        }
    }

    /// The language for what the system printed as its locale, where asking
    /// for it succeeded.
    pub fn detect(output: Option<&[u8]>) -> (l: Lang)
        ensures
            l == lang_for(
                match output {
                    Some(bytes) => Some(text::utf8_lossy(bytes@)),
                    None => None,
                },
            ),
    {
        match output {
            Some(bytes) => {
                let locale = text::lossy(bytes);
                Lang::of_locale(Some(locale.as_str()))
            },
            None => Lang::En,
        }
    }

    /// The language for a locale; English where there is none.
    pub fn of_locale(locale: Option<&str>) -> (l: Lang)
        ensures
            l == lang_for(
                match locale {
                    Some(s) => Some(s@),
                    None => None,
                },
            ),
    {
        match locale {
            Some(s) => {
                let chars = text::to_chars(s);
                let l = text::trim(chars.as_slice());
                let plain = text::to_chars("ru");
                let region = text::to_chars("ru_");
                let script = text::to_chars("ru-");
                let alone = l.len() == plain.len() && text::has_prefix(l, plain.as_slice());
                proof {
                    if alone {
                        assert(l@.subrange(0, plain@.len() as int) =~= l@);
                    }
                }
                if alone || text::has_prefix(l, region.as_slice()) || text::has_prefix(
                    l,
                    script.as_slice(),
                ) {
                    Lang::Ru
                } else {
                    Lang::En
                }
            },
            None => Lang::En,
        }
    }

    /// The texts in this language.
    pub fn strings(self) -> (s: Strings)
        ensures
            s == self.table(),
    {
        match self {
            Lang::Ru => Strings {
                connect: "Подключиться",
                cancel: "Отменить",
                disconnect: "Отключиться",
                not_connected: "Не подключено",
                connecting: "Подключение…",
                connected: "Подключено",
                settings: "Настройки",
                settings_hover: "Настройки",
                back: "Назад",
                servers: "Серверы",
                add_server: "+ Добавить сервер",
                remove_server_hover: "Удалить сервер",
                profile_name_label: "Имя профиля:",
                server_label: "Сервер:",
                username_label: "Логин:",
                password_label: "Пароль:",
                save_password_in_keychain: "Сохранить пароль в Keychain",
                save_settings: "Сохранить настройки",
                connection_log: "Лог подключения",
                fill_server_username_password: "Заполните сервер, логин и пароль",
                default_server_name_prefix: "Сервер",
                tray_status_disconnected: "\u{25CF} Отключено",
                tray_status_connecting: "\u{25CF} Подключение…",
                tray_status_connected: "\u{25CF} Подключено",
                tray_connect: "Подключиться",
                tray_disconnect: "Отключиться",
                tray_show_window: "Показать окно",
                tray_quit: "Выход",
                notif_app_name: "SSTP GUI",
                notif_restored_after_failure: "Восстановлен доступ в интернет после сбоя VPN",
                notif_restore_failed: "Не удалось восстановить интернет автоматически, см. лог",
            },
            Lang::En => Strings {
                connect: "Connect",
                cancel: "Cancel",
                disconnect: "Disconnect",
                not_connected: "Not connected",
                connecting: "Connecting…",
                connected: "Connected",
                settings: "Settings",
                settings_hover: "Settings",
                back: "Back",
                servers: "Servers",
                add_server: "+ Add server",
                remove_server_hover: "Remove server",
                profile_name_label: "Profile name:",
                server_label: "Server:",
                username_label: "Username:",
                password_label: "Password:",
                save_password_in_keychain: "Save password in Keychain",
                save_settings: "Save settings",
                connection_log: "Connection log",
                fill_server_username_password: "Fill in the server, username and password",
                default_server_name_prefix: "Server",
                tray_status_disconnected: "\u{25CF} Disconnected",
                tray_status_connecting: "\u{25CF} Connecting…",
                tray_status_connected: "\u{25CF} Connected",
                tray_connect: "Connect",
                tray_disconnect: "Disconnect",
                tray_show_window: "Show Window",
                tray_quit: "Quit",
                notif_app_name: "SSTP GUI",
                notif_restored_after_failure: "Internet access restored after a VPN failure",
                notif_restore_failed: "Could not restore internet access automatically, see the log",
            },
        }
    }
}

/// The language of this process, once it has been picked.
pub struct Current {
    lang: Option<Lang>,
}

impl View for Current {
    type V = Option<Lang>;

    closed spec fn view(&self) -> Option<Lang> {
        self.lang
    }
}

/// The language that counts when `found` is what the system asks for now: the
/// one picked before, where there is one.
pub open spec fn pinned(before: Option<Lang>, found: Lang) -> Lang {
    match before {
        Some(l) => l,
        None => found,
    }
}

impl Current {
    /// No language has been picked yet.
    pub fn new() -> (c: Current)
        ensures
            c@ is None,
    {
        Current { lang: None }
    }

    /// Whether a language has been picked.
    pub fn is_picked(&self) -> (r: bool)
        ensures
            r == self@ is Some,
    {
        self.lang.is_some()
    }

    /// The texts of the language that was picked first, which is `found` where
    /// none was.
    pub fn settle(&mut self, found: Lang) -> (s: Strings)
        ensures
            final(self)@ == Some(pinned(old(self)@, found)),
            s == pinned(old(self)@, found).table(),
    {
        let lang = match self.lang {
            Some(l) => l,
            None => found,
        };
        self.lang = Some(lang);
        lang.strings()
    }
}

impl Default for Current {
    fn default() -> (c: Current)
        ensures
            c@ is None,
    {
        Current::new()
    }
}

/// The texts of this process. The first call picks the language by what the
/// system printed as its locale; later calls keep it.
pub fn t(current: &mut Current, output: Option<&[u8]>) -> (s: Strings)
    ensures
        ({
            let found = lang_for(
                match output {
                    Some(bytes) => Some(text::utf8_lossy(bytes@)),
                    None => None,
                },
            );
            &&& final(current)@ == Some(pinned(old(current)@, found))
            &&& s == pinned(old(current)@, found).table()
        }),
{
    current.settle(Lang::detect(output))
}

/// The language after some calls, each with what the system asked for then.
pub open spec fn after_calls(before: Option<Lang>, found: Seq<Lang>) -> Option<Lang>
    decreases found.len(),
{
    if found.len() == 0 {
        before
    } else {
        Some(pinned(after_calls(before, found.drop_last()), found.last()))
    }
}

/// The first call picks the language for good: every call, the first and all
/// later ones, answers with its texts, none of them empty, whatever the system
/// asks for by then.
pub proof fn law_first_language_stays(found: Seq<Lang>, i: int)
    requires
        0 <= i < found.len(),
    ensures
        after_calls(None, found.take(i + 1)) == Some(found[0]),
        pinned(after_calls(None, found.take(i)), found[i]).table() == found[0].table(),
        found[0].table() == ru() || found[0].table() == en(),
        forall|k: int|
            0 <= k < found[0].table().list().len() ==> (#[trigger] found[0].table().list()[k]).len()
                > 0,
    decreases i,
{
    let upto = found.take(i + 1);
    assert(upto.drop_last() =~= found.take(i));
    assert(upto.last() == found[i]);
    if i > 0 {
        law_first_language_stays(found, i - 1);
    }
    assert forall|k: int| 0 <= k < found[0].table().list().len() implies (
    #[trigger] found[0].table().list()[k]).len() > 0 by {
        law_no_text_is_empty(found[0], k);
    }
}

proof fn lemma_ru_is_full(i: int)
    requires
        0 <= i < 31,
    ensures
        ru().list()[i].len() > 0,
{
    reveal_strlit("Подключиться");
    reveal_strlit("Отменить");
    reveal_strlit("Отключиться");
    reveal_strlit("Не подключено");
    reveal_strlit("Подключение…");
    reveal_strlit("Подключено");
    reveal_strlit("Настройки");
    reveal_strlit("Назад");
    reveal_strlit("Серверы");
    reveal_strlit("+ Добавить сервер");
    reveal_strlit("Удалить сервер");
    reveal_strlit("Имя профиля:");
    reveal_strlit("Сервер:");
    reveal_strlit("Логин:");
    reveal_strlit("Пароль:");
    reveal_strlit("Сохранить пароль в Keychain");
    reveal_strlit("Сохранить настройки");
    reveal_strlit("Лог подключения");
    reveal_strlit("Заполните сервер, логин и пароль");
    reveal_strlit("Сервер");
    reveal_strlit("\u{25CF} Отключено");
    reveal_strlit("\u{25CF} Подключение…");
    reveal_strlit("\u{25CF} Подключено");
    reveal_strlit("Показать окно");
    reveal_strlit("Выход");
    reveal_strlit("SSTP GUI");
    reveal_strlit("Восстановлен доступ в интернет после сбоя VPN");
    reveal_strlit("Не удалось восстановить интернет автоматически, см. лог");
}

proof fn lemma_en_is_full(i: int)
    requires
        0 <= i < 31,
    ensures
        en().list()[i].len() > 0,
{
    reveal_strlit("Connect");
    reveal_strlit("Cancel");
    reveal_strlit("Disconnect");
    reveal_strlit("Not connected");
    reveal_strlit("Connecting…");
    reveal_strlit("Connected");
    reveal_strlit("Settings");
    reveal_strlit("Back");
    reveal_strlit("Servers");
    reveal_strlit("+ Add server");
    reveal_strlit("Remove server");
    reveal_strlit("Profile name:");
    reveal_strlit("Server:");
    reveal_strlit("Username:");
    reveal_strlit("Password:");
    reveal_strlit("Save password in Keychain");
    reveal_strlit("Save settings");
    reveal_strlit("Connection log");
    reveal_strlit("Fill in the server, username and password");
    reveal_strlit("Server");
    reveal_strlit("\u{25CF} Disconnected");
    reveal_strlit("\u{25CF} Connecting…");
    reveal_strlit("\u{25CF} Connected");
    reveal_strlit("Show Window");
    reveal_strlit("Quit");
    reveal_strlit("SSTP GUI");
    reveal_strlit("Internet access restored after a VPN failure");
    reveal_strlit("Could not restore internet access automatically, see the log");
}

/// No text is empty, in either language.
pub proof fn law_no_text_is_empty(lang: Lang, i: int)
    requires
        0 <= i < lang.table().list().len(),
    ensures
        lang.table().list()[i].len() > 0,
{
    match lang {
        Lang::Ru => lemma_ru_is_full(i),
        Lang::En => lemma_en_is_full(i),
    }
}

/// The two languages differ.
pub proof fn law_languages_differ()
    ensures
        ru().list() != en().list(),
{
    reveal_strlit("Подключиться");
    reveal_strlit("Connect");
    assert(ru().list()[0].len() != en().list()[0].len());
}

/// Russian is picked for `ru` alone and for `ru` with an underscore or a hyphen
/// behind it, white space around it aside; for anything else, and where the
/// system reports nothing, it is English.
pub proof fn law_russian_is_picked_by_its_code(locale: Seq<char>)
    ensures
        ({
            let l = text::trimmed(locale);
            lang_for(Some(locale)) == Lang::Ru <==> l.len() >= 2 && l[0] == 'r' && l[1] == 'u' && (
            l.len() == 2 || l[2] == '_' || l[2] == '-')
        }),
        lang_for(Some(locale)) == Lang::Ru || lang_for(Some(locale)) == Lang::En,
        lang_for(None) == Lang::En,
{
    reveal_strlit("ru");
    reveal_strlit("ru_");
    reveal_strlit("ru-");
    let l = text::trimmed(locale);
    assert("ru"@ =~= seq!['r', 'u']);
    assert("ru_"@ =~= seq!['r', 'u', '_']);
    assert("ru-"@ =~= seq!['r', 'u', '-']);
    if l.len() == 2 && l[0] == 'r' && l[1] == 'u' {
        assert(l =~= "ru"@);
    }
    if l.len() > 2 {
        assert(l.subrange(0, 3) =~= seq![l[0], l[1], l[2]]);
        assert(l.subrange(0, 3).len() == 3);
        if text::starts_with(l, "ru_"@) {
            assert(l.subrange(0, 3)[2] == "ru_"@[2]);
        }
        if text::starts_with(l, "ru-"@) {
            assert(l.subrange(0, 3)[2] == "ru-"@[2]);
        }
        if l[0] == 'r' && l[1] == 'u' && l[2] == '_' {
            assert(l.subrange(0, 3) =~= "ru_"@);
        }
        if l[0] == 'r' && l[1] == 'u' && l[2] == '-' {
            assert(l.subrange(0, 3) =~= "ru-"@);
        }
    }
}

/// A language that has been picked is kept, and one that has not is the one
/// found.
pub proof fn law_a_pick_is_kept(before: Lang, found: Lang)
    ensures
        pinned(Some(before), found) == before,
        pinned(None, found) == found,
        Lang::Ru.table() == ru(),
        Lang::En.table() == en(),
{
}

} // verus!

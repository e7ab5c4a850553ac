//! Guides out of files and messages: what is taken, under which title, and what
//! commands about guides bring about.

use vstd::prelude::*;

use crate::db;
use crate::db::chats;
use crate::db::guides::GuideInfoView;
use crate::db::guides::GuideRowView;
use crate::db::keeping;
use crate::handlers::commands;
use crate::handlers::commands::Command;
use crate::handlers::effects;
use crate::handlers::guides;
use crate::handlers::writes;
use crate::handlers::writes::WriteView;
use crate::handlers::AppStateView;
use crate::strings;
use crate::strings::basics;
use crate::telegram::AttachmentView;
use crate::telegram::IncomingView;
use crate::utils::mentions;

verus! {

/// A name is cut at its last dot.
pub proof fn law_names_of_files(base: Seq<char>, ext: Seq<char>)
    requires
        mentions::lacks(ext, '.'),
    ensures
        guides::extension(base + seq!['.'] + ext) == ext,
        guides::stem(base + seq!['.'] + ext) == base,
        guides::extension(ext) == ext,
        guides::stem(ext) == ext,
{
    lemma_last_dot(base, ext);
    lemma_no_dot(ext);
    let name = base + seq!['.'] + ext;
    assert(name.skip(base.len() as int + 1) =~= ext);
    assert(name.take(base.len() as int) =~= base);
}

/// See [`law_names_of_files`].
proof fn lemma_last_dot(base: Seq<char>, ext: Seq<char>)
    requires
        mentions::lacks(ext, '.'),
    ensures
        guides::behind_dot(base + seq!['.'] + ext) == Some(base.len() as int + 1),
    decreases ext.len(),
{
    let name = base + seq!['.'] + ext;
    if ext.len() == 0 {
        assert(name.last() == '.');
    } else {
        let less = ext.drop_last();
        assert(mentions::lacks(less, '.')) by {
            assert forall|i: int| 0 <= i < less.len() implies #[trigger] less[i] != '.' by {
                assert(less[i] == ext[i]);
            }
        }
        lemma_last_dot(base, less);
        assert(name.drop_last() =~= base + seq!['.'] + less);
        assert(name.last() == ext[ext.len() - 1]);
    }
}

/// A name without a dot.
proof fn lemma_no_dot(name: Seq<char>)
    requires
        mentions::lacks(name, '.'),
    ensures
        guides::behind_dot(name) is None,
    decreases name.len(),
{
    if name.len() > 0 {
        let less = name.drop_last();
        assert(mentions::lacks(less, '.')) by {
            assert forall|i: int| 0 <= i < less.len() implies #[trigger] less[i] != '.' by {
                assert(less[i] == name[i]);
            }
        }
        lemma_no_dot(less);
        assert(name[name.len() - 1] != '.');
    }
}

/// The extensions of text files.
pub open spec fn text_extensions() -> Seq<Seq<char>> {
    seq![
        "txt"@,
        "md"@,
        "markdown"@,
        "csv"@,
        "json"@,
        "log"@,
        "yaml"@,
        "yml"@,
        "toml"@,
        "rst"@,
        "xml"@,
        "html"@,
        "patch"@,
    ]
}

/// A file is one of text if its type is `text/` and anything, or if its name ends
/// in one of the extensions, whatever their case; no other file is.
pub proof fn law_text_files(d: AttachmentView, base: Seq<char>, ext: Seq<char>, i: int)
    requires
        mentions::lacks(ext, '.'),
        0 <= i < 13,
    ensures
        d.mime_type is Some && "text/"@.is_prefix_of(d.mime_type->0) ==> guides::text_document(d),
        d.file_name == Some(base + seq!['.'] + ext) && strings::lowercase(ext)
            == text_extensions()[i] ==> guides::text_document(d),
        (d.mime_type is None || !"text/"@.is_prefix_of(d.mime_type->0)) && (d.file_name is None || (
        d.file_name == Some(base + seq!['.'] + ext) && !text_extensions().contains(
            strings::lowercase(ext),
        ))) ==> !guides::text_document(d),
{
    law_names_of_files(base, ext);
    let all = text_extensions();
    let e = strings::lowercase(ext);
    assert(all[0] == "txt"@ && all[1] == "md"@ && all[2] == "markdown"@ && all[3] == "csv"@
        && all[4] == "json"@ && all[5] == "log"@ && all[6] == "yaml"@ && all[7] == "yml"@ && all[8]
        == "toml"@ && all[9] == "rst"@ && all[10] == "xml"@ && all[11] == "html"@ && all[12]
        == "patch"@);
    if guides::text_extension(e) {
        assert(all.contains(e)) by {
            let k: int = if e == "txt"@ {
                0
            } else if e == "md"@ {
                1
            } else if e == "markdown"@ {
                2
            } else if e == "csv"@ {
                3
            } else if e == "json"@ {
                4
            } else if e == "log"@ {
                5
            } else if e == "yaml"@ {
                6
            } else if e == "yml"@ {
                7
            } else if e == "toml"@ {
                8
            } else if e == "rst"@ {
                9
            } else if e == "xml"@ {
                10
            } else if e == "html"@ {
                11
            } else {
                12
            };
            assert(all[k] == e);
        }
    }
}

/// A file is fetched if and only if an administrator sends it in private, it has
/// at most five mebibytes and is one of text; the sender is told what is wrong
/// otherwise.
pub proof fn law_which_files_are_fetched(s: AppStateView, msg: IncomingView, d: AttachmentView)
    ensures
        guides::document_step(s, msg, d) is Fetch <==> msg.from is Some && msg.private
            && effects::manages(s, msg) && d.size <= 5 * 1024 * 1024 && guides::text_document(d),
        guides::document_step(s, msg, d) is Ignore <==> msg.from is None,
{
}

/// The first line of a text does not depend on what follows it.
proof fn lemma_first_line(line: Seq<char>, rest: Seq<char>)
    requires
        mentions::lacks(line, '\n'),
    ensures
        strings::split_str(line + seq!['\n'] + rest, seq!['\n']).len() >= 2,
        strings::split_str(line + seq!['\n'] + rest, seq!['\n'])[0] == line,
    decreases rest.len(),
{
    let feed = seq!['\n'];
    let t = line + feed + rest;
    if rest.len() == 0 {
        strings::lemma_split_str_single(line, '\n');
        assert(t.drop_last() =~= line);
        assert(t.last() == '\n');
        let parts = strings::extend_last(strings::split_str(line, feed), '\n');
        assert(parts =~= seq![line.push('\n')]);
        assert(feed.is_suffix_of(line.push('\n'))) by {
            let u = line.push('\n');
            assert(u.subrange(u.len() - 1, u.len() as int) =~= feed);
        }
        assert(line.push('\n').take(line.push('\n').len() - 1) =~= line);
        let r = strings::split_str(t, feed);
        assert(r =~= parts.drop_last().push(line).push(Seq::empty()));
        assert(parts.drop_last() =~= Seq::<Seq<char>>::empty());
    } else {
        let less = rest.drop_last();
        lemma_first_line(line, less);
        assert(t.drop_last() =~= line + feed + less);
        let before = strings::split_str(line + feed + less, feed);
        let parts = strings::extend_last(before, t.last());
        assert(parts[0] == before[0]);
    }
}

/// The first 64 characters of a text.
pub open spec fn short(s: Seq<char>) -> Seq<char> {
    if s.len() > 64 {
        s.take(64)
    } else {
        s
    }
}

/// A caption gives the title by its first line.
proof fn lemma_caption(line: Seq<char>, rest: Seq<char>)
    requires
        line.len() > 0,
        basics::solid_ends(line),
        mentions::lacks(line, '\n'),
    ensures
        guides::caption_title(line) == short(line),
        guides::caption_title(line + seq!['\n'] + rest) == short(line),
{
    let e = Seq::<char>::empty();
    let feed = seq!['\n'];
    basics::law_trim(e, line, e);
    assert(e + line + e =~= line);
    strings::lemma_split_str_single(line, '\n');
    let t = line + feed + rest;
    if basics::all_white(rest) {
        let tail = feed + rest;
        assert forall|i: int| 0 <= i < tail.len() implies strings::is_white(#[trigger] tail[i]) by {
            if i > 0 {
                assert(tail[i] == rest[i - 1]);
            }
        }
        basics::law_trim(e, line, tail);
        assert(e + line + tail =~= t);
    } else {
        let r = strings::trim_end(rest);
        lemma_end_behind(line + feed, rest);
        assert(t =~= (line + feed) + rest);
        assert(t[0] == line[0]);
        assert(strings::trim_start(t) == t);
        assert(strings::trim(t) == line + feed + r);
        lemma_first_line(line, r);
    }
}

/// Trimming the end of a text trims the end of its last part, if that is not
/// white space alone.
proof fn lemma_end_behind(head: Seq<char>, s: Seq<char>)
    requires
        !basics::all_white(s),
    ensures
        strings::trim_end(head + s) == head + strings::trim_end(s),
    decreases s.len(),
{
    let t = head + s;
    if s.len() > 0 && strings::is_white(s.last()) {
        let less = s.drop_last();
        assert(!basics::all_white(less)) by {
            let i = choose|i: int| 0 <= i < s.len() && !strings::is_white(#[trigger] s[i]);
            assert(i < s.len() - 1);
            assert(!strings::is_white(less[i]));
        }
        assert(t.drop_last() =~= head + less);
        assert(t.last() == s.last());
        lemma_end_behind(head, less);
    } else {
        let i = choose|i: int| 0 <= i < s.len() && !strings::is_white(#[trigger] s[i]);
        assert(s.len() > 0);
        assert(t.last() == s.last());
    }
}

/// The title of a guide out of a file is the first line of its caption, cut to
/// 64 characters; without a caption it is the name of the file without its
/// extension, cut to 64 characters, unless that is blank.
pub proof fn law_titles_of_files(
    line: Seq<char>,
    rest: Seq<char>,
    name: Option<Seq<char>>,
    base: Seq<char>,
    ext: Seq<char>,
)
    requires
        line.len() > 0,
        basics::solid_ends(line),
        mentions::lacks(line, '\n'),
        mentions::lacks(ext, '.'),
    ensures
        guides::document_title(Some(line), name) == short(line),
        guides::document_title(Some(line + seq!['\n'] + rest), name) == short(line),
        !basics::all_white(base) ==> guides::document_title(None, Some(base + seq!['.'] + ext))
            == short(base),
        basics::all_white(base) ==> guides::document_title(None, Some(base + seq!['.'] + ext)).len()
            == 0,
        guides::document_title(None, None).len() == 0,
        forall|blank: Seq<char>| #[trigger]
            basics::all_white(blank) ==> guides::document_title(Some(blank), name)
                == guides::document_title(None, name),
{
    lemma_caption(line, rest);
    law_names_of_files(base, ext);
    crate::db::titles::lemma_blank_is_white(base);
    lemma_blank_caption(Seq::empty());
    assert forall|blank: Seq<char>| #[trigger]
        basics::all_white(blank) implies guides::document_title(Some(blank), name)
        == guides::document_title(None, name) by {
        lemma_blank_caption(blank);
    }
}

/// A blank caption gives no title.
proof fn lemma_blank_caption(blank: Seq<char>)
    requires
        basics::all_white(blank),
    ensures
        guides::caption_title(blank).len() == 0,
{
    let e = Seq::<char>::empty();
    basics::law_trim(blank, e, e);
    assert(strings::trim(blank) =~= e);
    strings::lemma_split_str_single(e, '\n');
    basics::law_trim(e, e, e);
}

/// The text of the message that a command replies to.
pub open spec fn replied_text(msg: IncomingView) -> Option<Seq<char>> {
    if msg.reply is None {
        None
    } else if msg.reply->0.text is Some {
        msg.reply->0.text
    } else {
        msg.reply->0.caption
    }
}

/// Adding a guide: an administrator's title and the text or caption of the message
/// that is replied to make a guide, which is written and then held behind the
/// others, unless it is refused. Anything else writes nothing and changes
/// nothing.
pub proof fn law_add_command(
    s: AppStateView,
    msg: IncomingView,
    title: String,
    errors: Seq<Option<Seq<char>>>,
    now: i64,
)
    ensures
        ({
            let cmd = Command::GuideAdd(title);
            let name = strings::trim(title@);
            let m = s.mgr.store;
            let store = commands::after_command(s, msg, cmd, errors, now);
            let list = writes::writes_for(s, msg, cmd, now);
            let text = replied_text(msg);
            let fine = effects::manages(s, msg) && name.len() > 0 && text is Some
                && m.guides.refusal(name, text->0) is None;
            let row = m.guides.new_row(name, msg.user_id(), text->0, now);
            &&& fine ==> list == seq![WriteView::AddGuide(row)]
            &&& !fine ==> list == Seq::<WriteView>::empty()
            &&& fine && effects::written(errors) ==> store.guides.rows == m.guides.rows.push(row)
                && store.guides.last_id == row.guide_id && store.chats == m.chats && store.settings
                == m.settings
            &&& !(fine && effects::written(errors)) ==> store == m
        }),
{
}

/// Removing a guide: the one that an administrator names goes, once its removal
/// is written, and the others stay. Anything else writes nothing and changes
/// nothing.
pub proof fn law_delete_command(
    s: AppStateView,
    msg: IncomingView,
    query: String,
    errors: Seq<Option<Seq<char>>>,
    now: i64,
)
    requires
        s.mgr.store.guides.wf(),
    ensures
        ({
            let cmd = Command::GuideDel(query);
            let m = s.mgr.store;
            let store = commands::after_command(s, msg, cmd, errors, now);
            let list = writes::writes_for(s, msg, cmd, now);
            let found = db::guides::named(m.guides.rows, strings::trim(query@));
            &&& effects::manages(s, msg) && found is Some ==> list == seq![
                WriteView::DeleteGuide(m.guides.rows[found->0].guide_id),
            ]
            &&& !(effects::manages(s, msg) && found is Some) ==> list == Seq::<WriteView>::empty()
            &&& effects::manages(s, msg) && found is Some && effects::written(errors)
                ==> store.guides.rows == m.guides.rows.remove(found->0) && store.guides.last_id
                == m.guides.last_id && store.chats == m.chats && store.settings == m.settings
            &&& !(effects::manages(s, msg) && found is Some && effects::written(errors)) ==> store
                == m
        }),
{
    let m = s.mgr.store;
    let name = strings::trim(query@);
    let found = db::guides::named(m.guides.rows, name);
    strings::lemma_trim_twice(query@);
    if found is Some {
        lemma_named_place(m.guides.rows, name);
        let i = found->0;
        let id = m.guides.rows[i].guide_id;
        db::guides::lemma_by_id(m.guides.rows, id);
        let k = db::guides::by_id(m.guides.rows, id)->0;
        if k < i {
            assert(m.guides.rows[k].guide_id < m.guides.rows[i].guide_id);
        } else if i < k {
            assert(m.guides.rows[i].guide_id < m.guides.rows[k].guide_id);
        }
    }
}

/// A guide that is named is one of the guides.
pub proof fn lemma_named_place(rows: Seq<GuideRowView>, query: Seq<char>)
    ensures
        db::guides::named(rows, query) matches Some(i) ==> 0 <= i < rows.len(),
{
    let q = strings::trim(query);
    db::guides::lemma_by_title(rows, q);
    match strings::parse_signed(q) {
        Some(id) => {
            db::guides::lemma_by_id(rows, id as i64);
        },
        None => {},
    }
    if exists|i: int| db::guides::only_start(rows, q, i) {
        let i = choose|i: int| db::guides::only_start(rows, q, i);
        assert(db::guides::only_start(rows, q, i));
    }
}

/// Clearing the memory of a chat: an administrator's command takes all its
/// messages, once that is written, and nothing else; anyone else's changes
/// nothing.
pub proof fn law_reset_chat_command(
    s: AppStateView,
    msg: IncomingView,
    errors: Seq<Option<Seq<char>>>,
    now: i64,
    chat_id: i64,
)
    ensures
        ({
            let m = s.mgr.store;
            let store = commands::after_command(s, msg, Command::Reset, errors, now);
            let rows = chats::chat_rows(store.chats.messages, chat_id);
            let list = writes::writes_for(s, msg, Command::Reset, now);
            &&& effects::manages(s, msg) ==> list == seq![WriteView::ResetChat(msg.chat_id)]
            &&& !effects::manages(s, msg) ==> list == Seq::<WriteView>::empty()
            &&& effects::manages(s, msg) && effects::written(errors) ==> (if chat_id == msg.chat_id {
                rows.len() == 0
            } else {
                rows == chats::chat_rows(m.chats.messages, chat_id)
            }) && store.guides == m.guides && store.settings == m.settings && store.chats.users
                == m.chats.users
            &&& !(effects::manages(s, msg) && effects::written(errors)) ==> store == m
        }),
{
    chats::law_reset_clears_chat(s.mgr.store.chats.messages, msg.chat_id, chat_id);
    keeping::law_reset_takes_one_chat(s.mgr.store.chats.messages, msg.chat_id);
}

/// The lines of the list of guides hold every line.
proof fn lemma_list_holds(all: Seq<GuideInfoView>, i: int) -> (parts: (Seq<char>, Seq<char>))
    requires
        0 <= i < all.len(),
    ensures
        guides::guide_lines(all) == parts.0 + guides::guide_line(all[i]) + parts.1,
    decreases all.len(),
{
    let init = all.drop_last();
    let own = guides::guide_line(all.last());
    if i == all.len() - 1 {
        let e = Seq::<char>::empty();
        assert(guides::guide_lines(init) + own + e =~= guides::guide_lines(init) + own);
        (guides::guide_lines(init), e)
    } else {
        let (a, b) = lemma_list_holds(init, i);
        assert(init[i] == all[i]);
        let mine = guides::guide_line(all[i]);
        assert(a + mine + b + own =~= a + mine + (b + own));
        (a, b + own)
    }
}

/// The list of guides tells their number and of each its id, its title and its
/// length.
pub proof fn law_list_of_guides(all: Seq<GuideInfoView>, i: int)
    requires
        0 <= i < all.len(),
    ensures
        strings::occurs(
            guides::guide_list(all),
            strings::decimal_int(all[i].id as int) + ". "@ + all[i].title + " (~"@
                + strings::decimal(all[i].chars as nat) + " симв.)"@,
        ),
        strings::occurs(guides::guide_list(all), strings::decimal(all.len())),
{
    reveal_strlit(" симв.)\n");
    reveal_strlit(" симв.)");
    let g = all[i];
    let told = strings::decimal_int(g.id as int) + ". "@ + g.title + " (~"@ + strings::decimal(
        g.chars as nat,
    ) + " симв.)"@;
    let feed = seq!['\n'];
    assert(" симв.)\n"@ =~= " симв.)"@ + feed);
    assert(guides::guide_line(g) =~= told + feed);
    let (a, b) = lemma_list_holds(all, i);
    let list = guides::guide_list(all);
    let head = "📚 Гайдов: "@;
    let count = strings::decimal(all.len());
    let end = "\nУдалить: /guide_del <название или id>"@;
    assert(list =~= (head + count + "\n\n"@ + a) + told + (feed + b + end));
    basics::law_occurs(head + count + "\n\n"@ + a, told, feed + b + end);
    let behind = "\n\n"@ + guides::guide_lines(all) + end;
    assert(list =~= head + count + behind);
    basics::law_occurs(head, count, behind);
}

/// A file from the fetched contents is saved under its title as a guide, once
/// that is written and unless it is refused; without a title nothing is.
pub proof fn law_save_file(
    s: AppStateView,
    msg: IncomingView,
    d: AttachmentView,
    content: Seq<char>,
    error: Option<Seq<char>>,
    now: i64,
)
    ensures
        ({
            let m = s.mgr.store;
            let title = guides::document_title(msg.caption, d.file_name);
            let store = guides::document_saved(s, msg, d, content, error, now).0;
            let fine = m.guides.refusal(title, content) is None && error is None;
            &&& fine ==> store.guides.rows == m.guides.rows.push(
                m.guides.new_row(title, msg.user_id(), content, now),
            ) && store.chats == m.chats && store.settings == m.settings
            &&& !fine ==> store == m
        }),
{
}

/// For everyone but administrators every command but the greeting, the help and
/// the summary is answered with a lock.
pub proof fn law_others_meet_a_lock(
    s: AppStateView,
    msg: IncomingView,
    cmd: Command,
    f: commands::Figures,
    errors: Seq<Option<Seq<char>>>,
    now: i64,
)
    requires
        !effects::manages(s, msg),
        !(cmd is Start) && !(cmd is Help) && !(cmd is Summary),
    ensures
        ({
            let text = commands::answer(s, msg, cmd, f, errors, now);
            ||| text == "🔒 Эта команда доступна только администратору бота."@
            ||| text == "🔒 Настройки доступны только администратору бота."@
            ||| text == "🔒 Управлять гайдами может только администратор бота."@
        }),
        commands::after_command(s, msg, cmd, errors, now) == s.mgr.store,
        writes::writes_for(s, msg, cmd, now) == Seq::<WriteView>::empty(),
{
    lemma_no_writes(s, msg, cmd, now);
}

/// Others write nothing.
proof fn lemma_no_writes(s: AppStateView, msg: IncomingView, cmd: Command, now: i64)
    requires
        !effects::manages(s, msg),
    ensures
        writes::writes_for(s, msg, cmd, now) == Seq::<WriteView>::empty(),
{
}

} // verus!

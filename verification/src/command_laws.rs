//! What importing accounts comes to, what is said of the takeover, and what the patch rests on.
use crate::accounts;
use crate::accounts::{Account, TraeLocalAccount};
use crate::commands;
use crate::commands::Usage;
use crate::endpoint::EndpointStatus;
use crate::gate;
use crate::gate::Side;
use crate::number;
use crate::patch;
use crate::patch::{MainJs, PatchStatus, Record};
use crate::proxy::ProxyStatus;
use crate::text;
use vstd::prelude::*;
use vstd::string::*;
use vstd::utf8::*;

verus! {

// ---------------------------------------------------------------------------
// Accounts
// ---------------------------------------------------------------------------

/// Importing adds exactly those who are not there yet, each behind the others: an account that is
/// the first of its person is added, and nobody else is.
pub proof fn law_who_is_imported(list: Seq<Account>, more: Seq<Account>, a: Account, i: int)
    ensures
        !accounts::has_equivalent(commands::with_imported(list, more), a)
            ==> commands::with_imported(list, more.push(a)) == commands::with_imported(
            list,
            more,
        ).push(a),
        accounts::has_equivalent(commands::with_imported(list, more), a)
            ==> commands::with_imported(list, more.push(a)) == commands::with_imported(list, more),
        commands::with_imported(list, Seq::empty()) == list,
        list.len() <= i < commands::with_imported(list, more).len() ==> more.contains(
            commands::with_imported(list, more)[i],
        ),
    decreases more.len(),
{
    assert(more.push(a).drop_last() =~= more);
    if more.len() > 0 {
        let rest = more.drop_last();
        law_who_is_imported(list, rest, a, i);
        let before = commands::with_imported(list, rest);
        let after = commands::with_imported(list, more);
        if list.len() <= i < after.len() {
            if i < before.len() {
                assert(after[i] == before[i]);
                let k = choose|k: int| 0 <= k < rest.len() && rest[k] == before[i];
                assert(more[k] == after[i]);
            } else {
                assert(more[more.len() - 1] == after[i]);
            }
        }
    }
}

/// Removing an account leaves exactly those with another id, in their order.
pub proof fn law_who_is_removed(id: Seq<char>, a: Account)
    ensures
        commands::has_other_id(id)(a) <==> a.id@ != id,
{
}

/// A login is known exactly where an account has its phone number, or, where one of them has none,
/// its token; exactly the logins that are not known can be imported, in their order.
pub proof fn law_which_logins_are_new(existing: Seq<Account>, found: Seq<TraeLocalAccount>)
    ensures
        commands::unknown(existing, found) == found.filter(
            |a: TraeLocalAccount|
                forall|i: int|
                    0 <= i < existing.len() ==> {
                        let e = #[trigger] existing[i];
                        if e.phone is Some && a.phone is Some {
                            e.phone->0@ != a.phone->0@
                        } else {
                            e.token@ != a.token@
                        }
                    },
        ),
    decreases found.len(),
{
    let new = |a: TraeLocalAccount|
        forall|i: int|
            0 <= i < existing.len() ==> {
                let e = #[trigger] existing[i];
                if e.phone is Some && a.phone is Some {
                    e.phone->0@ != a.phone->0@
                } else {
                    e.token@ != a.token@
                }
            };
    reveal(Seq::filter);
    if found.len() > 0 {
        law_which_logins_are_new(existing, found.drop_last());
        lemma_known(existing, found.last());
    }
    assert(commands::unknown(existing, found) =~= found.filter(new));
}

proof fn lemma_known(existing: Seq<Account>, a: TraeLocalAccount)
    ensures
        commands::known(existing, a) <==> exists|i: int|
            0 <= i < existing.len() && {
                let e = #[trigger] existing[i];
                if e.phone is Some && a.phone is Some {
                    e.phone->0@ == a.phone->0@
                } else {
                    e.token@ == a.token@
                }
            },
{
}

/// Credits are the same exactly where the number, the lack of a limit and the expiry are.
pub proof fn law_what_the_same_credits_are(s: accounts::CreditSnapshot, u: Usage)
    ensures
        commands::same_credits(Some(s), u) <==> s.credits == u.remaining && s.unlimited
            == u.unlimited && s.earliest_expiry_ms == u.earliest_expiry_ms,
        !commands::same_credits(None, u),
{
}

// ---------------------------------------------------------------------------
// The takeover
// ---------------------------------------------------------------------------

/// What is said of the takeover: where the application is not there, the state of the endpoint; then
/// what the patch lacks; then whose file is in the way; then that the proxy does not listen; then
/// that the endpoint does not point to it; only where all is well, that the takeover works.
pub proof fn law_what_is_said_of_the_takeover(
    on: bool,
    ep: EndpointStatus,
    px: ProxyStatus,
    p: PatchStatus,
)
    ensures
        ({
            let w = commands::takeover_words(on, ep, px, p);
            let fits = ep.supported && p.patched && !(ep.installed && !ep.ours);
            &&& !ep.supported ==> w == ep.message@
            &&& ep.supported && !p.patched ==> w == p.message@
            &&& ep.supported && p.patched && ep.installed && !ep.ours ==> w == ep.message@
            &&& fits && on && !px.active ==> w
                == "已开启接管，但本地反代未在监听——请检查端口是否被占用。"@
            &&& fits && on && px.active && !ep.installed ==> w
                == "本地反代已就绪，但 TraeWork 的端点还没指过来（TraeWork 升级后会丢失）。重新开启一次开关即可。"@
            &&& fits && on && px.active && ep.installed ==> w
                == "接管已生效：端点走明文回环，不需要任何证书。"@
            &&& fits && !on ==> w == ep.message@
        }),
{
}

/// The proxy listens where it is active on just that port.
pub proof fn law_when_the_proxy_listens(st: ProxyStatus, port: u16)
    ensures
        commands::listens(st, port) <==> st.active && st.port == port,
{
}

/// What is said where the proxy does not listen: the port, and the reason in brackets if there is
/// one.
pub proof fn law_words_without_a_proxy(port: u16, error: Seq<char>)
    ensures
        error.len() == 0 ==> commands::not_listening(port, error) == "本地代理未能在 127.0.0.1:"@
            + number::decimal(port as nat) + " 监听"@,
        error.len() > 0 ==> commands::not_listening(port, error) == "本地代理未能在 127.0.0.1:"@
            + number::decimal(port as nat) + " 监听"@ + ("（"@ + error + "）"@),
        commands::bool_text(true) == "true"@,
        commands::bool_text(false) == "false"@,
{
    reveal_strlit("");
    let head = "本地代理未能在 127.0.0.1:"@ + number::decimal(port as nat) + " 监听"@;
    assert(head + ""@ =~= head);
}

// ---------------------------------------------------------------------------
// The patch
// ---------------------------------------------------------------------------

/// A file is patched exactly where it has the marker and both gates are open; it is known exactly
/// where both gates and the identity array are as delivered, or both as opened.
pub proof fn law_when_a_file_is_patched_or_known(t: Seq<char>)
    ensures
        patch::is_open(t) <==> gate::marked(t) && gate::gates(t, Side::After).len() == 2,
        patch::is_known(t) <==> (gate::gates(t, Side::Before).len() == 2 && text::contains(
            t,
            gate::AX_BEFORE@,
        )) || (gate::gates(t, Side::After).len() == 2 && text::contains(t, gate::AX_AFTER@)),
{
}

/// What is said of a file that was read.
pub proof fn law_words_on_a_file(t: Seq<char>, writable: bool, hint: Seq<char>)
    ensures
        ({
            let w = patch::status_words(t, writable, hint);
            let n = number::decimal(gate::gates(t, Side::Before).len());
            let open = patch::is_open(t);
            let known = patch::is_known(t);
            &&& open && known ==> w
                == "TraeWork 已打「免证书补丁」：端点可用明文 http://，无需安装证书。"@
            &&& !open && known && !writable ==> w == "TraeWork 版本已识别（闸门 "@ + n
                + " 处，本助手认识这个版本），但它的安装目录不可写——"@ + hint
            &&& !open && known && writable ==> w == "TraeWork 未打补丁（识别正常：闸门 "@ + n
                + " 处 / 身份头数组在位），可以打。打完即可用明文 http:// 端点，不再需要证书。"@
            &&& open && !known ==> w
                == "检测到补丁标记，但闸门形态与预期不符——可能只打了一半，建议「还原补丁」后重来。"@
            &&& !open && !known ==> ("TraeWork 版本未被识别（闸门扫到 "@ + n).is_prefix_of(w)
        }),
{
}

/// The status of a file that was read shows what it is; of a file that was not, nothing but where it
/// should be.
pub proof fn law_status_of_a_file(probe: MainJs, s: PatchStatus)
    requires
        patch::status_of(probe, s),
    ensures
        probe matches MainJs::Found { path, content, writable, hint } ==> {
            &&& s.supported && s.writable == writable
            &&& text::opt_text(s.target) == Some(path@)
            &&& s.patched == patch::is_open(content@)
            &&& s.recognized == patch::is_known(content@)
            &&& gate::gates(content@, Side::After).len() == 2 ==> s.gates == 2
            &&& gate::gates(content@, Side::After).len() != 2 ==> s.gates == gate::gates(
                content@,
                Side::Before,
            ).len()
            &&& s.identity_patterns <==> text::contains(content@, gate::AX_BEFORE@)
                || text::contains(content@, gate::AX_AFTER@)
            &&& s.message@ == patch::status_words(content@, writable, hint@)
        },
        !(probe is Found) ==> !s.supported && !s.writable && !s.patched && !s.recognized && s.gates
            == 0 && !s.identity_patterns,
        probe is NoApp ==> s.target is None,
        probe matches MainJs::Absent(p) ==> text::opt_text(s.target) == Some(p@),
        probe matches MainJs::Unreadable(p) ==> text::opt_text(s.target) == Some(p@),
{
}

/// The patch is applied exactly to a file that is known, can be written and can be opened.
pub proof fn law_when_the_patch_is_applied(t: Seq<char>, writable: bool, hint: Seq<char>)
    ensures
        patch::apply_refusal(t, writable, hint) is None <==> patch::is_known(t) && writable
            && gate::patch_result(t) is Ok,
        patch::is_known(t) && !writable ==> patch::apply_refusal(t, writable, hint) == Some(
            "TraeWork 的 out/main.js 写不进去——"@ + hint,
        ),
        patch::is_known(t) && writable ==> (gate::patch_result(t) matches Err(e)
            ==> patch::apply_refusal(t, writable, hint) == Some(e)),
        !patch::is_known(t) ==> patch::apply_refusal(t, writable, hint) == Some(
            patch::status_words(t, writable, hint),
        ),
{
}

/// The worth of a digit of hexadecimal notation in lower case.
pub open spec fn nibble(c: char) -> int {
    if c <= '9' {
        c as int - '0' as int
    } else {
        c as int - 'a' as int + 10
    }
}

/// Bytes can be read back from their notation: two digits each, the higher one first.
pub proof fn law_fingerprint_shows_the_bytes(b: Seq<u8>, i: int)
    requires
        0 <= i < b.len(),
    ensures
        patch::hex_bytes(b).len() == 2 * b.len(),
        16 * nibble(patch::hex_bytes(b)[2 * i]) + nibble(patch::hex_bytes(b)[2 * i + 1]) == b[i],
        forall|k: int|
            0 <= k < patch::hex_bytes(b).len() ==> {
                let c = #[trigger] patch::hex_bytes(b)[k];
                ('0' <= c && c <= '9') || ('a' <= c && c <= 'f')
            },
    decreases b.len(),
{
    let rest = b.drop_last();
    let d = b.last() as int;
    lemma_hex_digit(d / 16);
    lemma_hex_digit(d % 16);
    if rest.len() > 0 {
        law_fingerprint_shows_the_bytes(
            rest,
            if i < rest.len() {
                i
            } else {
                0
            },
        );
    } else {
        assert(patch::hex_bytes(rest).len() == 0);
    }
    let r = patch::hex_bytes(b);
    let before = patch::hex_bytes(rest);
    assert(r[2 * rest.len() as int] == patch::hex_digit(d / 16));
    assert(r[2 * rest.len() as int + 1] == patch::hex_digit(d % 16));
    if i < rest.len() {
        assert(r[2 * i] == before[2 * i]);
        assert(r[2 * i + 1] == before[2 * i + 1]);
    }
    assert forall|k: int| 0 <= k < r.len() implies {
        let c = #[trigger] r[k];
        ('0' <= c && c <= '9') || ('a' <= c && c <= 'f')
    } by {
        if k < before.len() {
            assert(r[k] == before[k]);
        }
    }
}

proof fn lemma_hex_digit(d: int)
    requires
        0 <= d < 16,
    ensures
        nibble(patch::hex_digit(d)) == d,
        ({
            let c = patch::hex_digit(d);
            ('0' <= c && c <= '9') || ('a' <= c && c <= 'f')
        }),
{
    char_u32_cast((d + 48) as char, (d + 48) as u32);
    char_u32_cast((d + 87) as char, (d + 87) as u32);
}

/// A fingerprint is cut to the longest beginning of at most twelve bytes.
pub proof fn law_fingerprints_are_cut(s: Seq<char>)
    ensures
        patch::cut(s).is_prefix_of(s),
        encode_utf8(patch::cut(s)).len() <= 12,
        patch::cut(s).len() < s.len() ==> encode_utf8(s.take((patch::cut(s).len() + 1) as int)).len() > 12,
    decreases s.len(),
{
    if s.len() == 0 {
        assert(s =~= Seq::<char>::empty());
        assert(is_ascii_chars(s));
        is_ascii_chars_encode_utf8(s);
    } else if encode_utf8(s).len() > 12 {
        let rest = s.drop_last();
        law_fingerprints_are_cut(rest);
        let c = patch::cut(s);
        assert(c.is_prefix_of(rest));
        assert(c =~= s.take(c.len() as int));
        if c.len() < rest.len() {
            assert(rest.take((c.len() + 1) as int) =~= s.take((c.len() + 1) as int));
        } else {
            assert(s.take((c.len() + 1) as int) =~= s);
        }
    }
}

/// A record counts for the file at its own path, where it is of the understood version.
pub proof fn law_which_record_counts(rec: &Record, path: Seq<char>)
    ensures
        patch::expected(Some(rec), path) == (if rec.schema == 1 && rec.target@ == path {
            Some(rec.orig_sha256@)
        } else {
            None
        }),
        patch::expected(None, path) is None,
{
}

/// A patched file is restored to what closing its gates gives, unless that has another fingerprint
/// than the recorded one: then nothing is written.
pub proof fn law_what_is_restored(content: Seq<char>, want: Seq<char>)
    ensures
        gate::unpatch_result(content) matches Ok(t) ==> patch::restored(content, None) == Ok::<
            Seq<char>,
            Seq<char>,
        >(t),
        gate::unpatch_result(content) matches Ok(t) ==> patch::fingerprint(t) == want
            ==> patch::restored(content, Some(want)) == Ok::<Seq<char>, Seq<char>>(t),
        gate::unpatch_result(content) matches Ok(t) ==> patch::fingerprint(t) != want
            ==> patch::restored(content, Some(want)) is Err,
        gate::unpatch_result(content) matches Err(e) ==> patch::restored(content, Some(want))
            == Err::<Seq<char>, Seq<char>>(e),
{
}

} // verus!

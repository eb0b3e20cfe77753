//! What goes by which name.
use crate::arithmetic_laws;
use crate::binary32;
use crate::binary32::Binary32;
use crate::convert;
use crate::decimal;
use crate::rounding;
use crate::scale_ble::nimble;
use crate::scale_ble::nimble::AddressType;
use crate::scale_ble::types::ScaleConnectionState;
use crate::scale_weight::ScaleProtocol;
use crate::wifi_provision::http;
use crate::wifi_provision::http::RequestBodyError;
use crate::wifi_provision::form_laws;
use crate::wifi_provision::settings_laws;
use crate::wifi_provision::station;
use crate::wifi_provision::station::ScaleStep;
use vstd::arithmetic::power::*;
use vstd::arithmetic::power2::*;
use vstd::prelude::*;

verus! {

/// Each state of the connection has a name of its own.
pub proof fn lemma_names_of_states(s: ScaleConnectionState)
    ensures
        s.name() == "idle"@ <==> s is Idle,
        s.name() == "scanning"@ <==> s is Scanning,
        s.name() == "connecting"@ <==> s is Connecting,
        s.name() == "discovering"@ <==> s is Discovering,
        s.name() == "ready"@ <==> s is Ready,
        s.name() == "error"@ <==> s is Error,
{
    reveal_strlit("idle");
    reveal_strlit("scanning");
    reveal_strlit("connecting");
    reveal_strlit("discovering");
    reveal_strlit("ready");
    reveal_strlit("error");
    assert({
        &&& "idle"@.len() != "scanning"@.len()
        &&& "idle"@.len() != "connecting"@.len()
        &&& "scanning"@.len() != "connecting"@.len()
        &&& "idle"@.len() != "discovering"@.len()
        &&& "scanning"@.len() != "discovering"@.len()
        &&& "connecting"@.len() != "discovering"@.len()
        &&& "idle"@.len() != "ready"@.len()
        &&& "scanning"@.len() != "ready"@.len()
        &&& "connecting"@.len() != "ready"@.len()
        &&& "discovering"@.len() != "ready"@.len()
        &&& "idle"@.len() != "error"@.len()
        &&& "scanning"@.len() != "error"@.len()
        &&& "connecting"@.len() != "error"@.len()
        &&& "discovering"@.len() != "error"@.len()
        &&& "ready"@[0] != "error"@[0]
    });
}

/// Each protocol has a name of its own.
pub proof fn lemma_names_of_protocols(p: ScaleProtocol)
    ensures
        p.name() == "standard-weight"@ <==> p is StandardWeight,
        p.name() == "generic-notify"@ <==> p is GenericNotify,
        p.name() == "bookoo"@ <==> p is Bookoo,
        p.name() == "unknown"@ <==> p is Unknown,
{
    reveal_strlit("standard-weight");
    reveal_strlit("generic-notify");
    reveal_strlit("bookoo");
    reveal_strlit("unknown");
    assert({
        &&& "standard-weight"@.len() != "generic-notify"@.len()
        &&& "standard-weight"@.len() != "bookoo"@.len()
        &&& "generic-notify"@.len() != "bookoo"@.len()
        &&& "standard-weight"@.len() != "unknown"@.len()
        &&& "generic-notify"@.len() != "unknown"@.len()
        &&& "bookoo"@.len() != "unknown"@.len()
    });
}

/// Only a public address goes by that name; the others are random ones.
pub proof fn lemma_names_of_address_types(t: AddressType, name: Seq<char>)
    ensures
        nimble::address_type_name(t) == "public"@ <==> t is Public,
        nimble::address_type_name(t) == "random"@ <==> !(t is Public),
        nimble::address_type_named(name) is Public <==> name == "public"@,
{
    reveal_strlit("public");
    reveal_strlit("random");
    assert("public"@[0] != "random"@[0]);
}

/// What a request about the scale does goes by the name of its action: a scan is started for
/// `scan` alone, a scale is stored and connected to for `connect` alone, the stored scale is
/// removed for `forget` alone, the connection ends for `disconnect` and `forget`, and nothing is
/// done for any other name.
pub proof fn lemma_what_an_action_does(name: Seq<char>)
    ensures
        ({
            let steps = station::steps_of(station::action_named(name));
            &&& steps.contains(ScaleStep::StartScan) <==> name == "scan"@
            &&& steps.contains(ScaleStep::ConnectChosen) <==> name == "connect"@
            &&& steps.contains(ScaleStep::ClearStored) <==> name == "forget"@
            &&& steps.contains(ScaleStep::Disconnect) <==> name == "disconnect"@ || name
                == "forget"@
            &&& name != "scan"@ && name != "connect"@ && name != "disconnect"@ && name != "forget"@
                ==> steps.len() == 0
        }),
{
    reveal_strlit("scan");
    reveal_strlit("connect");
    reveal_strlit("disconnect");
    reveal_strlit("forget");
    assert({
        &&& "scan"@.len() != "connect"@.len()
        &&& "scan"@.len() != "disconnect"@.len()
        &&& "connect"@.len() != "disconnect"@.len()
        &&& "scan"@.len() != "forget"@.len()
        &&& "connect"@.len() != "forget"@.len()
        &&& "disconnect"@.len() != "forget"@.len()
    });
    form_laws::lemma_steps_keep_their_order(station::action_named(name));
}

/// A body that is too large is refused as such, one that is no text as a bad request, and one
/// that could not be read gets no answer.
pub proof fn lemma_refused_bodies(error: RequestBodyError)
    ensures
        station::body_refusal(error) is None <==> error is Io,
        station::body_refusal(error) matches Some(r) ==> (r.0 == 413 <==> error is TooLarge) && (
        r.0 == 400 <==> error is InvalidUtf8),
{
}

/// Under its own name a reply has the type of what it brings, how long that may be kept and the
/// policy for it; and no reply may be taken for another type or shown in a frame.
pub proof fn lemma_headers_of_a_reply(
    content_type: Seq<char>,
    cache_control: Seq<char>,
    policy: Seq<char>,
)
    ensures
        ({
            let h = http::headers_of(content_type, cache_control, policy);
            &&& http::first_value(h, "Content-Type"@) == Some(content_type)
            &&& http::first_value(h, "Cache-Control"@) == Some(cache_control)
            &&& http::first_value(h, "Content-Security-Policy"@) == Some(policy)
            &&& http::first_value(h, "X-Content-Type-Options"@) == Some("nosniff"@)
            &&& http::first_value(h, "X-Frame-Options"@) == Some("DENY"@)
            &&& http::first_value(h, "Referrer-Policy"@) == Some("no-referrer"@)
        }),
{
    let h = http::headers_of(content_type, cache_control, policy);
    reveal_strlit("Content-Type");
    reveal_strlit("Cache-Control");
    reveal_strlit("X-Content-Type-Options");
    reveal_strlit("X-Frame-Options");
    reveal_strlit("Referrer-Policy");
    reveal_strlit("Content-Security-Policy");
    reveal_strlit("Permissions-Policy");
    assert({
        &&& "Content-Type"@.len() != "Cache-Control"@.len()
        &&& "Content-Type"@.len() != "X-Content-Type-Options"@.len()
        &&& "Cache-Control"@.len() != "X-Content-Type-Options"@.len()
        &&& "Content-Type"@.len() != "X-Frame-Options"@.len()
        &&& "Cache-Control"@.len() != "X-Frame-Options"@.len()
        &&& "X-Content-Type-Options"@.len() != "X-Frame-Options"@.len()
        &&& "Content-Type"@.len() != "Referrer-Policy"@.len()
        &&& "Cache-Control"@.len() != "Referrer-Policy"@.len()
        &&& "X-Content-Type-Options"@.len() != "Referrer-Policy"@.len()
        &&& "X-Frame-Options"@[0] != "Referrer-Policy"@[0]
        &&& "Content-Type"@.len() != "Content-Security-Policy"@.len()
        &&& "Cache-Control"@.len() != "Content-Security-Policy"@.len()
        &&& "X-Content-Type-Options"@.len() != "Content-Security-Policy"@.len()
        &&& "X-Frame-Options"@.len() != "Content-Security-Policy"@.len()
        &&& "Referrer-Policy"@.len() != "Content-Security-Policy"@.len()
        &&& "Content-Type"@.len() != "Permissions-Policy"@.len()
        &&& "Cache-Control"@.len() != "Permissions-Policy"@.len()
        &&& "X-Content-Type-Options"@.len() != "Permissions-Policy"@.len()
        &&& "X-Frame-Options"@.len() != "Permissions-Policy"@.len()
        &&& "Referrer-Policy"@.len() != "Permissions-Policy"@.len()
        &&& "Content-Security-Policy"@.len() != "Permissions-Policy"@.len()
    });
    assert(h[0].0 == "Content-Type"@);
    assert(h[1].0 == "Cache-Control"@);
    assert(h[2].0 == "X-Content-Type-Options"@);
    assert(h[3].0 == "X-Frame-Options"@);
    assert(h[4].0 == "Referrer-Policy"@);
    assert(h[5].0 == "Content-Security-Policy"@);
    assert(h[6].0 == "Permissions-Policy"@);
    form_laws::lemma_first_mention_counts(h, "Content-Type"@, 0);
    form_laws::lemma_first_mention_counts(h, "Cache-Control"@, 1);
    form_laws::lemma_first_mention_counts(h, "X-Content-Type-Options"@, 2);
    form_laws::lemma_first_mention_counts(h, "X-Frame-Options"@, 3);
    form_laws::lemma_first_mention_counts(h, "Referrer-Policy"@, 4);
    form_laws::lemma_first_mention_counts(h, "Content-Security-Policy"@, 5);
}

/// A finite number that is shown with three digits behind the point keeps its sign and is within
/// half a thousandth of what is shown, but for the rounding of the number that is read back.
pub proof fn lemma_shown_number_is_near(x: Binary32)
    requires
        x.finite(),
        arithmetic_laws::size(x) <= 0x100_0000 * pow2(149),
    ensures
        decimal::number(convert::fixed3(x)) matches Some(y) && y.finite() && y.negative()
            == x.negative() && ({
            let u = pow2(149) as int;
            let a = arithmetic_laws::size(x) as int;
            let b = arithmetic_laws::size(y) as int;
            2 * 0x80_0000 * arithmetic_laws::apart(1000 * b, 1000 * a) <= 0x80_0000 * u + 2 * (1000
                * a + u)
        }),
{
    let u = pow2(149);
    let h = binary32::HIDDEN_BIT as nat;
    let a = arithmetic_laws::size(x);
    let t = convert::thousandths(x);
    settings_laws::lemma_three_digits_are_read_back(x);
    let y = settings_laws::to_thousandths(x);
    lemma_pow2_pos(149);
    lemma_unit_is_large();
    let n = a * 1000;
    vstd::arithmetic::div_mod::lemma_fundamental_div_mod(n as int, u as int);
    vstd::arithmetic::div_mod::lemma_mod_bound(n as int, u as int);
    let q = n as int / u as int;
    let r = n as int % u as int;
    let tu = t * u;
    assert(2 * (tu - n) <= u && 2 * (n - tu) <= u) by (nonlinear_arith)
        requires
            n == u * q + r,
            0 <= r < u,
            tu == t * u,
            t == q && 2 * r <= u || t == q + 1 && 2 * r >= u,
    ;
    reveal(decimal::decimal_field);
    reveal(pow);
    reveal_with_fuel(pow, 4);
    assert(pow(10, 3) == 1000);
    rounding::lemma_rounding_is_close(tu, 1000, h);
    let f = rounding::magnitude_of(tu, 1000, h);
    let v = rounding::magnitude_value(f, h);
    assert(v <= 0x200_0000 * u);
    assert(f < binary32::INFINITE_FIELD) by {
        let most = Binary32::from_bits(0x4c80_0000);
        lemma2_to64();
        binary32::lemma_value_of(most, 0x80_0000, 152);
        lemma_pow2_adds(149, 3);
        assert(0x80_0000 * pow2(152) == 0x400_0000 * u) by (nonlinear_arith)
            requires
                pow2(149) * pow2(3) == pow2(152),
                pow2(3) == 8,
                u == pow2(149),
        ;
        if f >= 0x4c80_0000 {
            if f > 0x4c80_0000 {
                rounding::lemma_magnitude_value_increases(0x4c80_0000, f, h);
            }
            assert(rounding::magnitude_value(0x4c80_0000, h) == most.value());
        }
    }
    assert(y.magnitude() == f && y.negative() == x.negative());
    assert(arithmetic_laws::size(y) == v);
}

proof fn lemma_unit_is_large()
    ensures
        pow2(149) >= 0x1_0000_0000_0000_0000,
{
    lemma2_to64();
    lemma2_to64_rest();
    lemma_pow2_adds(64, 85);
    lemma_pow2_pos(85);
    assert(pow2(149) >= 0x1_0000_0000_0000_0000) by (nonlinear_arith)
        requires
            pow2(149) == pow2(64) * pow2(85),
            pow2(64) == 0x1_0000_0000_0000_0000,
            pow2(85) >= 1,
    ;
}

} // verus!

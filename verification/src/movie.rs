//! The movie as a whole: the common time base of its tracks and the
//! file-level configuration of the MP4 it becomes.

use vstd::prelude::*;
use crate::error::RemuxError;
use crate::audio::AudioTrack;
use crate::video::VideoTrack;

verus! {

/// The greatest common divisor, by Euclid's algorithm.
pub open spec fn spec_gcd(a: nat, b: nat) -> nat
    decreases b,
{
    if b == 0 {
        a
    } else {
        spec_gcd(b, a % b)
    }
}

pub fn gcd_u32(left: u32, right: u32) -> (r: u32)
    ensures
        r == spec_gcd(left as nat, right as nat),
{
    let ghost a0 = left as nat;
    let ghost b0 = right as nat;
    let mut left = left;
    let mut right = right;
    while right != 0
        invariant
            spec_gcd(left as nat, right as nat) == spec_gcd(a0, b0),
        decreases right,
    {
        let remainder = left % right;
        left = right;
        right = remainder;
    }
    left
}

/// The least common multiple of two time scales, where it fits in `u32`;
/// a zero scale gives the other one.
pub open spec fn spec_lcm_u32(left: u32, right: u32) -> Option<u32> {
    if left == 0 || right == 0 {
        Some(if left >= right { left } else { right })
    } else {
        let v = (left as nat / spec_gcd(left as nat, right as nat)) * right;
        if v > u32::MAX {
            None
        } else {
            Some(v as u32)
        }
    }
}

/// The GCD divides both numbers.
pub proof fn lemma_gcd_divides(a: nat, b: nat)
    requires
        a > 0 || b > 0,
    ensures
        spec_gcd(a, b) > 0,
        a % spec_gcd(a, b) == 0,
        b % spec_gcd(a, b) == 0,
    decreases b,
{
    if b == 0 {
        vstd::arithmetic::div_mod::lemma_mod_self_0(a as int);
        vstd::arithmetic::div_mod::lemma_small_mod(0, a);
    } else {
        lemma_gcd_divides(b, a % b);
        let g = spec_gcd(a, b);
        let q = a / b;
        let m = a % b;
        vstd::arithmetic::div_mod::lemma_fundamental_div_mod(a as int, b as int);
        vstd::arithmetic::div_mod::lemma_fundamental_div_mod(b as int, g as int);
        vstd::arithmetic::div_mod::lemma_fundamental_div_mod(m as int, g as int);
        let k = (b / g) * q + m / g;
        assert(a == g * k) by (nonlinear_arith)
            requires
                a == b * q + m,
                b == g * (b / g),
                m == g * (m / g),
                k == (b / g) * q + m / g,
        ;
        vstd::arithmetic::div_mod::lemma_mod_multiples_basic(k as int, g as int);
        assert(g * k == k * g) by (nonlinear_arith);
    }
}

pub fn lcm_u32(left: u32, right: u32) -> (r: Option<u32>)
    ensures
        r == spec_lcm_u32(left, right),
{
    if left == 0 || right == 0 {
        return Some(if left >= right { left } else { right });
    }
    let gcd = gcd_u32(left, right);
    proof {
        lemma_gcd_divides(left as nat, right as nat);
        vstd::arithmetic::div_mod::lemma_div_is_ordered_by_denominator(left as int, 1, gcd as int);
        vstd::arithmetic::mul::lemma_mul_upper_bound(
            (left / gcd) as int,
            u32::MAX as int,
            right as int,
            u32::MAX as int,
        );
    }
    let quotient = left as u64 / gcd as u64;
    let value = match quotient.checked_mul(right as u64) {
        Some(v) => v,
        None => return None,
    };
    if value > u32::MAX as u64 {
        None
    } else {
        Some(value as u32)
    }
}

/// Where the LCM of two positive time scales exists, both divide it.
pub proof fn lemma_lcm_common_multiple(left: u32, right: u32)
    requires
        left > 0,
        right > 0,
        spec_lcm_u32(left, right) is Some,
    ensures
        spec_lcm_u32(left, right)->0 % left == 0,
        spec_lcm_u32(left, right)->0 % right == 0,
        spec_lcm_u32(left, right)->0 > 0,
{
    lemma_gcd_divides(left as nat, right as nat);
    let g = spec_gcd(left as nat, right as nat);
    let v = spec_lcm_u32(left, right)->0;
    vstd::arithmetic::div_mod::lemma_fundamental_div_mod(left as int, g as int);
    vstd::arithmetic::div_mod::lemma_fundamental_div_mod(right as int, g as int);
    let a = left as int / g as int;
    let b = right as int / g as int;
    assert(v == a * right);
    assert(v == left * b) by (nonlinear_arith)
        requires
            v == a * right,
            left == g * a,
            right == g * b,
    ;
    vstd::arithmetic::div_mod::lemma_mod_multiples_basic(a, right as int);
    vstd::arithmetic::div_mod::lemma_mod_multiples_basic(b, left as int);
    assert(a * right == right * a) by (nonlinear_arith);
    assert(left * b == b * left) by (nonlinear_arith);
    assert(a > 0) by (nonlinear_arith)
        requires
            left == g * a,
            left > 0,
            g > 0,
    ;
    vstd::arithmetic::mul::lemma_mul_strictly_positive(a, right as int);
}

/// Bezout's identity: the GCD is an integer combination of the two numbers.
proof fn lemma_bezout(a: nat, b: nat) -> (xy: (int, int))
    ensures
        spec_gcd(a, b) == xy.0 * a + xy.1 * b,
    decreases b,
{
    if b == 0 {
        (1, 0)
    } else {
        let (x, y) = lemma_bezout(b, a % b);
        let ai = a as int;
        let bi = b as int;
        let r = (a % b) as int;
        let q = (a / b) as int;
        vstd::arithmetic::div_mod::lemma_fundamental_div_mod(ai, bi);
        assert(x * bi + y * r == y * ai + (x - y * q) * bi) by (nonlinear_arith)
            requires
                ai == bi * q + r,
        ;
        (y, x - y * q)
    }
}

/// `a / gcd(a, b) * b` divides every common multiple of `a` and `b`.
proof fn lemma_lcm_divides_common_multiples(a: u32, b: u32, m: int)
    requires
        a > 0,
        b > 0,
        m % (a as int) == 0,
        m % (b as int) == 0,
    ensures
        (a as nat / spec_gcd(a as nat, b as nat)) * b > 0,
        m % ((a as nat / spec_gcd(a as nat, b as nat)) * b) == 0,
{
    lemma_gcd_divides(a as nat, b as nat);
    let g = spec_gcd(a as nat, b as nat) as int;
    let ai = a as int;
    let bi = b as int;
    let k = (a as nat / spec_gcd(a as nat, b as nat)) as int;
    let v = k * bi;
    vstd::arithmetic::div_mod::lemma_fundamental_div_mod(ai, g);
    vstd::arithmetic::div_mod::lemma_fundamental_div_mod(m, ai);
    vstd::arithmetic::div_mod::lemma_fundamental_div_mod(m, bi);
    let p = m / ai;
    let q = m / bi;
    let (x, y) = lemma_bezout(a as nat, b as nat);
    let t = x * q + y * p;
    assert(k > 0) by (nonlinear_arith)
        requires
            ai == g * k,
            ai > 0,
            g > 0,
    ;
    let ab = ai * bi;
    assert(m * g == x * (ai * m) + y * (bi * m)) by (nonlinear_arith)
        requires
            g == x * ai + y * bi,
    ;
    assert(ai * m == ab * q) by (nonlinear_arith)
        requires
            m == bi * q,
            ab == ai * bi,
    ;
    assert(bi * m == ab * p) by (nonlinear_arith)
        requires
            m == ai * p,
            ab == ai * bi,
    ;
    assert(m * g == ab * t) by (nonlinear_arith)
        requires
            m * g == x * (ab * q) + y * (ab * p),
            t == x * q + y * p,
    ;
    assert(ab == g * v) by (nonlinear_arith)
        requires
            ai == g * k,
            v == k * bi,
            ab == ai * bi,
    ;
    assert(g * m == g * (v * t)) by (nonlinear_arith)
        requires
            m * g == ab * t,
            ab == g * v,
    ;
    vstd::arithmetic::mul::lemma_mul_equality_converse(g, m, v * t);
    vstd::arithmetic::mul::lemma_mul_strictly_positive(k, bi);
    vstd::arithmetic::div_mod::lemma_mod_multiples_basic(t, v);
    assert(v * t == t * v) by (nonlinear_arith);
}

/// `lcm_u32` gives the least common multiple: for positive time scales its
/// result is a positive multiple of both that divides every common multiple
/// of them, and it is refused only when every positive common multiple, the
/// least one included, exceeds `u32::MAX`.
pub proof fn lemma_lcm_is_least_common_multiple(a: u32, b: u32, m: int)
    requires
        a > 0,
        b > 0,
        m > 0,
        m % (a as int) == 0,
        m % (b as int) == 0,
    ensures
        spec_lcm_u32(a, b) matches Some(l) ==> l > 0 && l % a == 0 && l % b == 0 && m % (l as int)
            == 0,
        spec_lcm_u32(a, b) is None ==> m > u32::MAX,
{
    lemma_lcm_divides_common_multiples(a, b, m);
    let v = (a as nat / spec_gcd(a as nat, b as nat)) * b;
    if spec_lcm_u32(a, b) is Some {
        lemma_lcm_common_multiple(a, b);
        let l = spec_lcm_u32(a, b)->0;
        assert(l as int == v);
        assert(m % (l as int) == 0);
    } else {
        vstd::arithmetic::div_mod::lemma_fundamental_div_mod(m, v);
        assert(m >= v) by (nonlinear_arith)
            requires
                m == v * (m / v) + m % v,
                m % v == 0,
                m > 0,
                v > 0,
        ;
    }
}

/// The time base of the movie: the least common multiple of its tracks'
/// time scales (the video track's, then the audio track's), starting from 1,
/// and never below 1.
pub open spec fn spec_movie_timescale(video_timescale: Option<u32>, audio_timescale: Option<u32>) -> Option<u32> {
    let after_video = match video_timescale {
        Some(v) => spec_lcm_u32(1, v),
        None => Some(1u32),
    };
    let after_audio = match (after_video, audio_timescale) {
        (Some(t), Some(a)) => spec_lcm_u32(t, a),
        (t, None) => t,
        (None, Some(_)) => None,
    };
    match after_audio {
        Some(t) => Some(if t >= 1 { t } else { 1 }),
        None => None,
    }
}

/// Divisibility is transitive.
proof fn lemma_divides_trans(a: int, b: int, c: int)
    requires
        a > 0,
        b > 0,
        b % a == 0,
        c % b == 0,
    ensures
        c % a == 0,
{
    vstd::arithmetic::div_mod::lemma_fundamental_div_mod(b, a);
    vstd::arithmetic::div_mod::lemma_fundamental_div_mod(c, b);
    let k1 = b / a;
    let k2 = c / b;
    assert(c == (k1 * k2) * a) by (nonlinear_arith)
        requires
            b == a * k1,
            c == b * k2,
    ;
    vstd::arithmetic::div_mod::lemma_mod_multiples_basic(k1 * k2, a);
}

/// The movie's time base is a multiple of every track's time scale, so each
/// track's sample times map onto it exactly.
pub proof fn lemma_movie_timescale_common_multiple(video_timescale: Option<u32>, audio_timescale: Option<u32>)
    requires
        video_timescale matches Some(v) ==> v > 0,
        audio_timescale matches Some(a) ==> a > 0,
    ensures
        spec_movie_timescale(video_timescale, audio_timescale) matches Some(t) ==> {
            &&& t > 0
            &&& video_timescale matches Some(v) ==> t % v == 0
            &&& audio_timescale matches Some(a) ==> t % a == 0
        },
{
    let after_video = match video_timescale {
        Some(v) => spec_lcm_u32(1, v),
        None => Some(1u32),
    };
    if let Some(v) = video_timescale {
        if spec_lcm_u32(1, v) is Some {
            lemma_lcm_common_multiple(1, v);
        }
    }
    if let (Some(t1), Some(a)) = (after_video, audio_timescale) {
        if spec_lcm_u32(t1, a) is Some {
            lemma_lcm_common_multiple(t1, a);
            if let Some(v) = video_timescale {
                lemma_divides_trans(v as int, t1 as int, spec_lcm_u32(t1, a)->0 as int);
            }
        }
    }
}

pub open spec fn video_timescale_of(video: Option<&VideoTrack>) -> Option<u32> {
    match video {
        Some(v) => Some(v.timescale),
        None => None,
    }
}

pub open spec fn audio_timescale_of(audio: Option<&AudioTrack>) -> Option<u32> {
    match audio {
        Some(a) => Some(a.timescale),
        None => None,
    }
}

/// The common time base of the tracks, or an error where it overflows `u32`.
pub fn compute_movie_timescale(video_track: Option<&VideoTrack>, audio_track: Option<&AudioTrack>) -> (r:
    Result<u32, RemuxError>)
    ensures
        match spec_movie_timescale(video_timescale_of(video_track), audio_timescale_of(audio_track)) {
            Some(t) => r == Ok::<u32, RemuxError>(t),
            None => r matches Err(e) && e == RemuxError::MovieTimescaleOverflow,
        },
{
    let mut timescales: Vec<u32> = Vec::new();
    if let Some(track) = video_track {
        timescales.push(track.timescale);
    }
    if let Some(track) = audio_track {
        timescales.push(track.timescale);
    }
    let mut movie_timescale = 1u32;
    let mut i = 0usize;
    while i < timescales.len()
        invariant
            i <= timescales@.len(),
            timescales@ == (match video_track {
                Some(v) => seq![v.timescale],
                None => Seq::<u32>::empty(),
            }) + (match audio_track {
                Some(a) => seq![a.timescale],
                None => Seq::<u32>::empty(),
            }),
            i == 0 ==> movie_timescale == 1,
            i == 1 && video_track is Some ==> Some(movie_timescale) == spec_lcm_u32(
                1,
                video_track->0.timescale,
            ),
            i == 1 && video_track is None ==> Some(movie_timescale) == spec_lcm_u32(
                1,
                audio_track->0.timescale,
            ),
            i == 2 ==> Some(movie_timescale) == spec_lcm_u32(
                spec_lcm_u32(1, video_track->0.timescale)->0,
                audio_track->0.timescale,
            ),
            i == 2 ==> spec_lcm_u32(1, video_track->0.timescale) is Some,
        decreases timescales@.len() - i,
    {
        movie_timescale = match lcm_u32(movie_timescale, timescales[i]) {
            Some(t) => t,
            None => return Err(RemuxError::MovieTimescaleOverflow),
        };
        i += 1;
    }
    Ok(
        if movie_timescale >= 1 {
            movie_timescale
        } else {
            1
        },
    )
}

/// A four-character code, as a big-endian `u32`.
pub const BRAND_ISOM: u32 = 0x6973_6f6d;

pub const BRAND_ISO2: u32 = 0x6973_6f32;

pub const BRAND_AVC1: u32 = 0x6176_6331;

pub const BRAND_MP41: u32 = 0x6d70_3431;

/// The minor version written in the file type box.
pub const MOVIE_MINOR_VERSION: u32 = 512;

/// What the file type and movie header boxes of the output hold, and the
/// track IDs the tracks are written under.
#[derive(Debug, Clone)]
pub struct MovieConfig {
    pub major_brand: u32,
    pub minor_version: u32,
    pub compatible_brands: Vec<u32>,
    pub timescale: u32,
    pub video_track_id: Option<u32>,
    pub audio_track_id: Option<u32>,
}

/// The brands the movie claims: ISO base media and its second version, AVC
/// when there is video, and MP4 version 1.
pub open spec fn spec_compatible_brands(has_video: bool) -> Seq<u32> {
    seq![BRAND_ISOM, BRAND_ISO2] + (if has_video {
        seq![BRAND_AVC1]
    } else {
        Seq::<u32>::empty()
    }) + seq![BRAND_MP41]
}

/// The configuration of the MP4 a pair of tracks becomes: refused when there
/// is neither, otherwise with the common time base, the brands, and the video
/// track first, then the audio track.
pub fn movie_config(video_track: Option<&VideoTrack>, audio_track: Option<&AudioTrack>) -> (r: Result<
    MovieConfig,
    RemuxError,
>)
    ensures
        video_track is None && audio_track is None ==> (r matches Err(e) && e
            == RemuxError::NoConvertibleTrack),
        video_track is Some || audio_track is Some ==> (match spec_movie_timescale(
            video_timescale_of(video_track),
            audio_timescale_of(audio_track),
        ) {
            None => r matches Err(e) && e == RemuxError::MovieTimescaleOverflow,
            Some(t) => r matches Ok(c) && c.major_brand == BRAND_ISOM && c.minor_version
                == MOVIE_MINOR_VERSION && c.compatible_brands@ == spec_compatible_brands(
                video_track is Some,
            ) && c.timescale == t && c.video_track_id == (if video_track is Some {
                Some(1u32)
            } else {
                None
            }) && c.audio_track_id == (if audio_track is Some {
                Some(if video_track is Some { 2u32 } else { 1u32 })
            } else {
                None
            }),
        }),
{
    if video_track.is_none() && audio_track.is_none() {
        return Err(RemuxError::NoConvertibleTrack);
    }
    let timescale = compute_movie_timescale(video_track, audio_track)?;
    let mut compatible_brands: Vec<u32> = Vec::new();
    compatible_brands.push(BRAND_ISOM);
    compatible_brands.push(BRAND_ISO2);
    if video_track.is_some() {
        compatible_brands.push(BRAND_AVC1);
    }
    compatible_brands.push(BRAND_MP41);
    assert(compatible_brands@ =~= spec_compatible_brands(video_track is Some));
    let mut next_track_id = 1u32;
    let video_track_id = if video_track.is_some() {
        next_track_id += 1;
        Some(1u32)
    } else {
        None
    };
    let audio_track_id = if audio_track.is_some() {
        Some(next_track_id)
    } else {
        None
    };
    Ok(
        MovieConfig {
            major_brand: BRAND_ISOM,
            minor_version: MOVIE_MINOR_VERSION,
            compatible_brands,
            timescale,
            video_track_id,
            audio_track_id,
        },
    )
}

} // verus!

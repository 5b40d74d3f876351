//! Anime4K shader chains and the `glsl-shaders` value built from them, and
//! the player's demuxer cache limit.
use vstd::prelude::*;
use crate::text::{chars_of, string_of, push_all, chars_eq};
use crate::paths::{std_path_join, path_join};

verus! {

/// The shader files of an Anime4K mode (`A`, `B` or `C`), the lighter
/// single-pass chains on mobile devices.
pub open spec fn anime4k_chain(mode: Seq<char>, mobile: bool) -> Option<Seq<Seq<char>>> {
    if mobile {
        if mode == "A"@ {
            Some(seq!["Anime4K_Clamp_Highlights.glsl"@, "Anime4K_Restore_CNN_M.glsl"@, "Anime4K_Upscale_CNN_x2_M.glsl"@])
        } else if mode == "B"@ {
            Some(seq!["Anime4K_Clamp_Highlights.glsl"@, "Anime4K_Upscale_CNN_x2_M.glsl"@])
        } else if mode == "C"@ {
            Some(seq!["Anime4K_Upscale_CNN_x2_M.glsl"@])
        } else {
            None
        }
    } else {
        if mode == "A"@ {
            Some(seq![
                "Anime4K_Clamp_Highlights.glsl"@,
                "Anime4K_Restore_CNN_VL.glsl"@,
                "Anime4K_Upscale_CNN_x2_VL.glsl"@,
                "Anime4K_AutoDownscalePre_x2.glsl"@,
                "Anime4K_AutoDownscalePre_x4.glsl"@,
                "Anime4K_Upscale_CNN_x2_M.glsl"@,
            ])
        } else if mode == "B"@ {
            Some(seq![
                "Anime4K_Clamp_Highlights.glsl"@,
                "Anime4K_Restore_CNN_Soft_VL.glsl"@,
                "Anime4K_Upscale_CNN_x2_VL.glsl"@,
                "Anime4K_AutoDownscalePre_x2.glsl"@,
                "Anime4K_AutoDownscalePre_x4.glsl"@,
                "Anime4K_Upscale_CNN_x2_M.glsl"@,
            ])
        } else if mode == "C"@ {
            Some(seq![
                "Anime4K_Clamp_Highlights.glsl"@,
                "Anime4K_Upscale_Denoise_CNN_x2_VL.glsl"@,
                "Anime4K_AutoDownscalePre_x2.glsl"@,
                "Anime4K_AutoDownscalePre_x4.glsl"@,
                "Anime4K_Upscale_CNN_x2_M.glsl"@,
            ])
        } else {
            None
        }
    }
}

/// The Anime4K chains: only modes `A`, `B` and `C` exist. On the desktop
/// every chain clamps highlights first and ends by pre-downscaling twice and
/// upscaling with the `M` network; in between, mode `A` restores with the
/// `VL` network and upscales with the `VL` network, mode `B` does the same
/// with the soft restore, and mode `C` upscales with denoising instead. On
/// mobile devices mode `A` clamps, restores and upscales with `M` networks,
/// mode `B` clamps and upscales, and mode `C` only upscales. No two modes
/// share a chain.
pub proof fn law_anime4k_chains(mode: Seq<char>)
    ensures
        anime4k_chain(mode, false) is Some <==> (mode == "A"@ || mode == "B"@ || mode == "C"@),
        anime4k_chain(mode, true) is Some <==> (mode == "A"@ || mode == "B"@ || mode == "C"@),
        anime4k_chain(mode, false) matches Some(c) ==> c.len() >= 5 && c[0] == "Anime4K_Clamp_Highlights.glsl"@
            && c.subrange(c.len() - 3, c.len() as int) == seq![
                "Anime4K_AutoDownscalePre_x2.glsl"@,
                "Anime4K_AutoDownscalePre_x4.glsl"@,
                "Anime4K_Upscale_CNN_x2_M.glsl"@,
            ],
        mode == "A"@ ==> (anime4k_chain(mode, false) matches Some(c) && c.subrange(1, c.len() - 3) == seq![
            "Anime4K_Restore_CNN_VL.glsl"@,
            "Anime4K_Upscale_CNN_x2_VL.glsl"@,
        ]),
        mode == "B"@ ==> (anime4k_chain(mode, false) matches Some(c) && c.subrange(1, c.len() - 3) == seq![
            "Anime4K_Restore_CNN_Soft_VL.glsl"@,
            "Anime4K_Upscale_CNN_x2_VL.glsl"@,
        ]),
        mode == "C"@ ==> (anime4k_chain(mode, false) matches Some(c) && c.subrange(1, c.len() - 3) == seq![
            "Anime4K_Upscale_Denoise_CNN_x2_VL.glsl"@,
        ]),
        mode == "A"@ ==> anime4k_chain(mode, true) == Some(seq![
            "Anime4K_Clamp_Highlights.glsl"@,
            "Anime4K_Restore_CNN_M.glsl"@,
            "Anime4K_Upscale_CNN_x2_M.glsl"@,
        ]),
        mode == "B"@ ==> anime4k_chain(mode, true) == Some(seq![
            "Anime4K_Clamp_Highlights.glsl"@,
            "Anime4K_Upscale_CNN_x2_M.glsl"@,
        ]),
        mode == "C"@ ==> anime4k_chain(mode, true) == Some(seq!["Anime4K_Upscale_CNN_x2_M.glsl"@]),
{
    reveal_strlit("A");
    reveal_strlit("B");
    reveal_strlit("C");
    if mode == "B"@ || mode == "C"@ {
        assert(mode != "A"@) by {
            assert(mode[0] != "A"@[0]);
        }
    }
    if mode == "C"@ {
        assert(mode != "B"@) by {
            assert(mode[0] != "B"@[0]);
        }
    }
    if let Some(c) = anime4k_chain(mode, false) {
        assert(c.subrange(c.len() - 3, c.len() as int) =~= seq![
            "Anime4K_AutoDownscalePre_x2.glsl"@,
            "Anime4K_AutoDownscalePre_x4.glsl"@,
            "Anime4K_Upscale_CNN_x2_M.glsl"@,
        ]);
        if mode == "A"@ || mode == "B"@ {
            assert(c.subrange(1, c.len() - 3) =~= seq![c[1], c[2]]);
        } else {
            assert(c.subrange(1, c.len() - 3) =~= seq![c[1]]);
        }
    }
}

/// Distinct Anime4K modes give distinct chains, on the desktop and on mobile
/// devices alike.
pub proof fn law_anime4k_modes_differ(m1: Seq<char>, m2: Seq<char>, mobile: bool)
    requires
        m1 != m2,
        anime4k_chain(m1, mobile) is Some,
        anime4k_chain(m2, mobile) is Some,
    ensures
        anime4k_chain(m1, mobile) != anime4k_chain(m2, mobile),
{
    reveal_strlit("A");
    reveal_strlit("B");
    reveal_strlit("C");
    reveal_strlit("Anime4K_Clamp_Highlights.glsl");
    reveal_strlit("Anime4K_Restore_CNN_VL.glsl");
    reveal_strlit("Anime4K_Restore_CNN_Soft_VL.glsl");
    reveal_strlit("Anime4K_Upscale_Denoise_CNN_x2_VL.glsl");
    reveal_strlit("Anime4K_Restore_CNN_M.glsl");
    reveal_strlit("Anime4K_Upscale_CNN_x2_M.glsl");
    let c1 = anime4k_chain(m1, mobile)->0;
    let c2 = anime4k_chain(m2, mobile)->0;
    if c1 == c2 {
        assert(c1.len() == c2.len());
        assert(c1[0] == c2[0]);
        assert(c1[1] == c2[1]);
        assert("Anime4K_Restore_CNN_VL.glsl"@[20] != "Anime4K_Restore_CNN_Soft_VL.glsl"@[20]);
    }
}

pub open spec fn strs_view(v: Seq<&str>) -> Seq<Seq<char>> {
    v.map_values(|s: &str| s@)
}

/// The shader files of an Anime4K mode, or the error for an unknown mode.
pub fn anime4k_shader_names(mode: &str, mobile: bool) -> (r: Result<Vec<&'static str>, String>)
    ensures
        match r {
            Ok(v) => anime4k_chain(mode@, mobile) == Some(strs_view(v@)),
            Err(e) => anime4k_chain(mode@, mobile) is None && e@ == "Unknown Anime4K mode: "@ + mode@,
        },
{
    let m = chars_of(mode);
    let v: Vec<&'static str> = if mobile {
        if chars_eq(&m, &chars_of("A")) {
            vec!["Anime4K_Clamp_Highlights.glsl", "Anime4K_Restore_CNN_M.glsl", "Anime4K_Upscale_CNN_x2_M.glsl"]
        } else if chars_eq(&m, &chars_of("B")) {
            vec!["Anime4K_Clamp_Highlights.glsl", "Anime4K_Upscale_CNN_x2_M.glsl"]
        } else if chars_eq(&m, &chars_of("C")) {
            vec!["Anime4K_Upscale_CNN_x2_M.glsl"]
        } else {
            let mut e = chars_of("Unknown Anime4K mode: ");
            push_all(&mut e, &m);
            return Err(string_of(&e));
        }
    } else {
        if chars_eq(&m, &chars_of("A")) {
            vec![
                "Anime4K_Clamp_Highlights.glsl",
                "Anime4K_Restore_CNN_VL.glsl",
                "Anime4K_Upscale_CNN_x2_VL.glsl",
                "Anime4K_AutoDownscalePre_x2.glsl",
                "Anime4K_AutoDownscalePre_x4.glsl",
                "Anime4K_Upscale_CNN_x2_M.glsl",
            ]
        } else if chars_eq(&m, &chars_of("B")) {
            vec![
                "Anime4K_Clamp_Highlights.glsl",
                "Anime4K_Restore_CNN_Soft_VL.glsl",
                "Anime4K_Upscale_CNN_x2_VL.glsl",
                "Anime4K_AutoDownscalePre_x2.glsl",
                "Anime4K_AutoDownscalePre_x4.glsl",
                "Anime4K_Upscale_CNN_x2_M.glsl",
            ]
        } else if chars_eq(&m, &chars_of("C")) {
            vec![
                "Anime4K_Clamp_Highlights.glsl",
                "Anime4K_Upscale_Denoise_CNN_x2_VL.glsl",
                "Anime4K_AutoDownscalePre_x2.glsl",
                "Anime4K_AutoDownscalePre_x4.glsl",
                "Anime4K_Upscale_CNN_x2_M.glsl",
            ]
        } else {
            let mut e = chars_of("Unknown Anime4K mode: ");
            push_all(&mut e, &m);
            return Err(string_of(&e));
        }
    };
    assert(anime4k_chain(mode@, mobile) == Some(strs_view(v@)));
    Ok(v)
}

/// The paths joined by `:` (the `glsl-shaders` list).
pub open spec fn colon_joined(paths: Seq<Seq<char>>) -> Seq<char>
    decreases paths.len(),
{
    if paths.len() == 0 {
        seq![]
    } else if paths.len() == 1 {
        paths[0]
    } else {
        colon_joined(paths.drop_last()) + seq![':'] + paths.last()
    }
}

/// Each shader file placed in `dir`.
pub open spec fn shader_paths(dir: Seq<char>, names: Seq<Seq<char>>) -> Seq<Seq<char>> {
    names.map_values(|n: Seq<char>| std_path_join(dir, n))
}

/// The `glsl-shaders` value: each shader file placed in `dir`, joined by `:`.
pub fn shader_list(dir: &str, names: &Vec<&str>) -> (r: String)
    ensures
        r@ == colon_joined(shader_paths(dir@, strs_view(names@))),
{
    let ghost all = shader_paths(dir@, strs_view(names@));
    let mut v: Vec<char> = Vec::new();
    let mut i: usize = 0;
    assert(all.subrange(0, 0) =~= Seq::<Seq<char>>::empty());
    while i < names.len()
        invariant
            i <= names@.len(),
            all == shader_paths(dir@, strs_view(names@)),
            v@ == colon_joined(all.subrange(0, i as int)),
        decreases names@.len() - i,
    {
        let p = path_join(dir, names[i]);
        assert(p@ == all[i as int]);
        if i > 0 {
            v.push(':');
        }
        push_all(&mut v, &chars_of(p.as_str()));
        assert(all.subrange(0, i + 1).drop_last() =~= all.subrange(0, i as int));
        i = i + 1;
        proof {
            if i == 1 {
                assert(v@ =~= all.subrange(0, 1)[0]);
            } else {
                assert(v@ =~= colon_joined(all.subrange(0, i - 1)) + seq![':'] + all[i - 1]);
            }
        }
    }
    assert(all.subrange(0, i as int) =~= all);
    string_of(&v)
}

/// Where the shader files are: `resources/shaders` under the resource
/// directory.
pub fn shader_dir(resource_dir: &str) -> (r: String)
    ensures
        r@ == std_path_join(std_path_join(resource_dir@, "resources"@), "shaders"@),
{
    let res = path_join(resource_dir, "resources");
    path_join(res.as_str(), "shaders")
}

/// The demuxer cache limit, in bytes, for a buffer size in MiB.
pub fn demuxer_max_bytes(size_mib: i64) -> (r: i64)
    requires
        i64::MIN <= size_mib * 1048576 <= i64::MAX,
    ensures
        r == size_mib * 1048576,
{
    size_mib * 1024 * 1024
}

} // verus!

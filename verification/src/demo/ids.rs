//! The ids of the demonstration's sessions, worked out round by round.

use crate::bytes;
use crate::demo::sessions;
use crate::stamp;
use vstd::prelude::*;

verus! {

/// One round more: the hash of `k` bytes, the next byte, the two combined,
/// and the hash of `k + 1` bytes.
proof fn round(b: Seq<u8>, k: int, h: u64, c: u8, x: u64, r: u64)
    requires
        0 <= k < b.len(),
        bytes::fnv(b.take(k)) == h,
        b[k] == c,
        h ^ (c as u64) == x,
        x * 0x0000_0100_0000_01b3 % 0x1_0000_0000_0000_0000 == r,
    ensures
        bytes::fnv(b.take(k + 1)) == r,
{
    assert(b.take(k + 1).drop_last() =~= b.take(k));
}

#[verifier::spinoff_prover]
pub proof fn opencode_id()
    ensures
        sessions::stable("demo.opencode.wyd"@) == 0x46e3_2438_6ab9_778f,
{
    let b = bytes::utf8("demo.opencode.wyd"@);
    reveal_strlit("demo.opencode.wyd");
    stamp::ascii_bytes("demo.opencode.wyd"@);
    assert(0xcbf2_9ce4_8422_2325u64 ^ 100u64 == 0xcbf2_9ce4_8422_2341u64
        && 0xaf63_d94c_8601_e773u64 ^ 101u64 == 0xaf63_d94c_8601_e716u64
        && 0x0891_5307_b53b_aa62u64 ^ 109u64 == 0x0891_5307_b53b_aa0fu64
        && 0xca9a_2518_f461_f77du64 ^ 111u64 == 0xca9a_2518_f461_f712u64
        && 0xa5e4_1b67_4276_d396u64 ^ 46u64 == 0xa5e4_1b67_4276_d3b8u64
        && 0x596e_4875_efe9_c1a8u64 ^ 111u64 == 0x596e_4875_efe9_c1c7u64
        && 0xe026_e766_aa34_4525u64 ^ 112u64 == 0xe026_e766_aa34_4555u64
        && 0x1660_8873_36d1_cf6fu64 ^ 101u64 == 0x1660_8873_36d1_cf0au64
        && 0xd7d6_e5c6_2682_cdfeu64 ^ 110u64 == 0xd7d6_e5c6_2682_cd90u64
        && 0x44f5_ffb3_7043_4bb0u64 ^ 99u64 == 0x44f5_ffb3_7043_4bd3u64
        && 0x714d_50e7_c259_d789u64 ^ 111u64 == 0x714d_50e7_c259_d7e6u64
        && 0xe038_5fcf_3ea9_dbd2u64 ^ 100u64 == 0xe038_5fcf_3ea9_dbb6u64
        && 0xa9a6_8327_7aa0_5642u64 ^ 101u64 == 0xa9a6_8327_7aa0_5627u64
        && 0xe647_0315_5e72_6445u64 ^ 46u64 == 0xe647_0315_5e72_646bu64
        && 0xbd0e_a84f_7c60_a1d1u64 ^ 119u64 == 0xbd0e_a84f_7c60_a1a6u64
        && 0xa089_a510_5832_ad12u64 ^ 121u64 == 0xa089_a510_5832_ad6bu64
        && 0xfc90_e5c5_de1c_acd1u64 ^ 100u64 == 0xfc90_e5c5_de1c_acb5u64) by (bit_vector);
    assert(b.take(0) =~= Seq::<u8>::empty());
    round(b, 0, 0xcbf2_9ce4_8422_2325, 100, 0xcbf2_9ce4_8422_2341, 0xaf63_d94c_8601_e773);
    round(b, 1, 0xaf63_d94c_8601_e773, 101, 0xaf63_d94c_8601_e716, 0x0891_5307_b53b_aa62);
    round(b, 2, 0x0891_5307_b53b_aa62, 109, 0x0891_5307_b53b_aa0f, 0xca9a_2518_f461_f77d);
    round(b, 3, 0xca9a_2518_f461_f77d, 111, 0xca9a_2518_f461_f712, 0xa5e4_1b67_4276_d396);
    round(b, 4, 0xa5e4_1b67_4276_d396, 46, 0xa5e4_1b67_4276_d3b8, 0x596e_4875_efe9_c1a8);
    round(b, 5, 0x596e_4875_efe9_c1a8, 111, 0x596e_4875_efe9_c1c7, 0xe026_e766_aa34_4525);
    round(b, 6, 0xe026_e766_aa34_4525, 112, 0xe026_e766_aa34_4555, 0x1660_8873_36d1_cf6f);
    round(b, 7, 0x1660_8873_36d1_cf6f, 101, 0x1660_8873_36d1_cf0a, 0xd7d6_e5c6_2682_cdfe);
    round(b, 8, 0xd7d6_e5c6_2682_cdfe, 110, 0xd7d6_e5c6_2682_cd90, 0x44f5_ffb3_7043_4bb0);
    round(b, 9, 0x44f5_ffb3_7043_4bb0, 99, 0x44f5_ffb3_7043_4bd3, 0x714d_50e7_c259_d789);
    round(b, 10, 0x714d_50e7_c259_d789, 111, 0x714d_50e7_c259_d7e6, 0xe038_5fcf_3ea9_dbd2);
    round(b, 11, 0xe038_5fcf_3ea9_dbd2, 100, 0xe038_5fcf_3ea9_dbb6, 0xa9a6_8327_7aa0_5642);
    round(b, 12, 0xa9a6_8327_7aa0_5642, 101, 0xa9a6_8327_7aa0_5627, 0xe647_0315_5e72_6445);
    round(b, 13, 0xe647_0315_5e72_6445, 46, 0xe647_0315_5e72_646b, 0xbd0e_a84f_7c60_a1d1);
    round(b, 14, 0xbd0e_a84f_7c60_a1d1, 119, 0xbd0e_a84f_7c60_a1a6, 0xa089_a510_5832_ad12);
    round(b, 15, 0xa089_a510_5832_ad12, 121, 0xa089_a510_5832_ad6b, 0xfc90_e5c5_de1c_acd1);
    round(b, 16, 0xfc90_e5c5_de1c_acd1, 100, 0xfc90_e5c5_de1c_acb5, 0x46e3_2438_6ab9_778f);
    assert(b.take(17) =~= b);
}

#[verifier::spinoff_prover]
pub proof fn aider_id()
    ensures
        sessions::stable("demo.aider.docs"@) == 0x8e31_a9b2_874a_fe0a,
{
    let b = bytes::utf8("demo.aider.docs"@);
    reveal_strlit("demo.aider.docs");
    stamp::ascii_bytes("demo.aider.docs"@);
    assert(0xcbf2_9ce4_8422_2325u64 ^ 100u64 == 0xcbf2_9ce4_8422_2341u64
        && 0xaf63_d94c_8601_e773u64 ^ 101u64 == 0xaf63_d94c_8601_e716u64
        && 0x0891_5307_b53b_aa62u64 ^ 109u64 == 0x0891_5307_b53b_aa0fu64
        && 0xca9a_2518_f461_f77du64 ^ 111u64 == 0xca9a_2518_f461_f712u64
        && 0xa5e4_1b67_4276_d396u64 ^ 46u64 == 0xa5e4_1b67_4276_d3b8u64
        && 0x596e_4875_efe9_c1a8u64 ^ 97u64 == 0x596e_4875_efe9_c1c9u64
        && 0xe026_e966_aa34_488bu64 ^ 105u64 == 0xe026_e966_aa34_48e2u64
        && 0x1667_7b73_36d7_d806u64 ^ 100u64 == 0x1667_7b73_36d7_d862u64
        && 0xe9af_26c6_30c4_ae86u64 ^ 101u64 == 0xe9af_26c6_30c4_aee3u64
        && 0xd94d_c5c4_de35_2bb9u64 ^ 114u64 == 0xd94d_c5c4_de35_2bcbu64
        && 0x7452_d885_9459_69f1u64 ^ 46u64 == 0x7452_d885_9459_69dfu64
        && 0x022f_c9fb_13ee_e5edu64 ^ 100u64 == 0x022f_c9fb_13ee_e589u64
        && 0xa619_bea2_def0_07cbu64 ^ 111u64 == 0xa619_bea2_def0_07a4u64
        && 0x2dc6_92c0_d1dc_fbacu64 ^ 99u64 == 0x2dc6_92c0_d1dc_fbcfu64
        && 0xa567_2ca4_9a7f_e0bdu64 ^ 115u64 == 0xa567_2ca4_9a7f_e0ceu64) by (bit_vector);
    assert(b.take(0) =~= Seq::<u8>::empty());
    round(b, 0, 0xcbf2_9ce4_8422_2325, 100, 0xcbf2_9ce4_8422_2341, 0xaf63_d94c_8601_e773);
    round(b, 1, 0xaf63_d94c_8601_e773, 101, 0xaf63_d94c_8601_e716, 0x0891_5307_b53b_aa62);
    round(b, 2, 0x0891_5307_b53b_aa62, 109, 0x0891_5307_b53b_aa0f, 0xca9a_2518_f461_f77d);
    round(b, 3, 0xca9a_2518_f461_f77d, 111, 0xca9a_2518_f461_f712, 0xa5e4_1b67_4276_d396);
    round(b, 4, 0xa5e4_1b67_4276_d396, 46, 0xa5e4_1b67_4276_d3b8, 0x596e_4875_efe9_c1a8);
    round(b, 5, 0x596e_4875_efe9_c1a8, 97, 0x596e_4875_efe9_c1c9, 0xe026_e966_aa34_488b);
    round(b, 6, 0xe026_e966_aa34_488b, 105, 0xe026_e966_aa34_48e2, 0x1667_7b73_36d7_d806);
    round(b, 7, 0x1667_7b73_36d7_d806, 100, 0x1667_7b73_36d7_d862, 0xe9af_26c6_30c4_ae86);
    round(b, 8, 0xe9af_26c6_30c4_ae86, 101, 0xe9af_26c6_30c4_aee3, 0xd94d_c5c4_de35_2bb9);
    round(b, 9, 0xd94d_c5c4_de35_2bb9, 114, 0xd94d_c5c4_de35_2bcb, 0x7452_d885_9459_69f1);
    round(b, 10, 0x7452_d885_9459_69f1, 46, 0x7452_d885_9459_69df, 0x022f_c9fb_13ee_e5ed);
    round(b, 11, 0x022f_c9fb_13ee_e5ed, 100, 0x022f_c9fb_13ee_e589, 0xa619_bea2_def0_07cb);
    round(b, 12, 0xa619_bea2_def0_07cb, 111, 0xa619_bea2_def0_07a4, 0x2dc6_92c0_d1dc_fbac);
    round(b, 13, 0x2dc6_92c0_d1dc_fbac, 99, 0x2dc6_92c0_d1dc_fbcf, 0xa567_2ca4_9a7f_e0bd);
    round(b, 14, 0xa567_2ca4_9a7f_e0bd, 115, 0xa567_2ca4_9a7f_e0ce, 0x8e31_a9b2_874a_fe0a);
    assert(b.take(15) =~= b);
}

#[verifier::spinoff_prover]
pub proof fn cursor_id()
    ensures
        sessions::stable("demo.cursor.site"@) == 0x410a_9699_2424_6847,
{
    let b = bytes::utf8("demo.cursor.site"@);
    reveal_strlit("demo.cursor.site");
    stamp::ascii_bytes("demo.cursor.site"@);
    assert(0xcbf2_9ce4_8422_2325u64 ^ 100u64 == 0xcbf2_9ce4_8422_2341u64
        && 0xaf63_d94c_8601_e773u64 ^ 101u64 == 0xaf63_d94c_8601_e716u64
        && 0x0891_5307_b53b_aa62u64 ^ 109u64 == 0x0891_5307_b53b_aa0fu64
        && 0xca9a_2518_f461_f77du64 ^ 111u64 == 0xca9a_2518_f461_f712u64
        && 0xa5e4_1b67_4276_d396u64 ^ 46u64 == 0xa5e4_1b67_4276_d3b8u64
        && 0x596e_4875_efe9_c1a8u64 ^ 99u64 == 0x596e_4875_efe9_c1cbu64
        && 0xe026_eb66_aa34_4bf1u64 ^ 117u64 == 0xe026_eb66_aa34_4b84u64
        && 0x166d_8373_36dc_514cu64 ^ 114u64 == 0x166d_8373_36dc_513eu64
        && 0xf867_9ac6_385e_0c5au64 ^ 115u64 == 0xf867_9ac6_385e_0c29u64
        && 0x7618_27d1_c7ce_a9abu64 ^ 111u64 == 0x7618_27d1_c7ce_a9c4u64
        && 0x79b5_6d76_842a_780cu64 ^ 114u64 == 0x79b5_6d76_842a_787eu64
        && 0xf9c1_7e62_942a_be1au64 ^ 46u64 == 0xf9c1_7e62_942a_be34u64
        && 0x8e87_f581_c4a1_325cu64 ^ 115u64 == 0x8e87_f581_c4a1_322fu64
        && 0xd238_5a81_1de8_45ddu64 ^ 105u64 == 0xd238_5a81_1de8_45b4u64
        && 0x1e07_7d65_d1ae_70dcu64 ^ 116u64 == 0x1e07_7d65_d1ae_70a8u64
        && 0xb52a_bc03_4b69_6d78u64 ^ 101u64 == 0xb52a_bc03_4b69_6d1du64) by (bit_vector);
    assert(b.take(0) =~= Seq::<u8>::empty());
    round(b, 0, 0xcbf2_9ce4_8422_2325, 100, 0xcbf2_9ce4_8422_2341, 0xaf63_d94c_8601_e773);
    round(b, 1, 0xaf63_d94c_8601_e773, 101, 0xaf63_d94c_8601_e716, 0x0891_5307_b53b_aa62);
    round(b, 2, 0x0891_5307_b53b_aa62, 109, 0x0891_5307_b53b_aa0f, 0xca9a_2518_f461_f77d);
    round(b, 3, 0xca9a_2518_f461_f77d, 111, 0xca9a_2518_f461_f712, 0xa5e4_1b67_4276_d396);
    round(b, 4, 0xa5e4_1b67_4276_d396, 46, 0xa5e4_1b67_4276_d3b8, 0x596e_4875_efe9_c1a8);
    round(b, 5, 0x596e_4875_efe9_c1a8, 99, 0x596e_4875_efe9_c1cb, 0xe026_eb66_aa34_4bf1);
    round(b, 6, 0xe026_eb66_aa34_4bf1, 117, 0xe026_eb66_aa34_4b84, 0x166d_8373_36dc_514c);
    round(b, 7, 0x166d_8373_36dc_514c, 114, 0x166d_8373_36dc_513e, 0xf867_9ac6_385e_0c5a);
    round(b, 8, 0xf867_9ac6_385e_0c5a, 115, 0xf867_9ac6_385e_0c29, 0x7618_27d1_c7ce_a9ab);
    round(b, 9, 0x7618_27d1_c7ce_a9ab, 111, 0x7618_27d1_c7ce_a9c4, 0x79b5_6d76_842a_780c);
    round(b, 10, 0x79b5_6d76_842a_780c, 114, 0x79b5_6d76_842a_787e, 0xf9c1_7e62_942a_be1a);
    round(b, 11, 0xf9c1_7e62_942a_be1a, 46, 0xf9c1_7e62_942a_be34, 0x8e87_f581_c4a1_325c);
    round(b, 12, 0x8e87_f581_c4a1_325c, 115, 0x8e87_f581_c4a1_322f, 0xd238_5a81_1de8_45dd);
    round(b, 13, 0xd238_5a81_1de8_45dd, 105, 0xd238_5a81_1de8_45b4, 0x1e07_7d65_d1ae_70dc);
    round(b, 14, 0x1e07_7d65_d1ae_70dc, 116, 0x1e07_7d65_d1ae_70a8, 0xb52a_bc03_4b69_6d78);
    round(b, 15, 0xb52a_bc03_4b69_6d78, 101, 0xb52a_bc03_4b69_6d1d, 0x410a_9699_2424_6847);
    assert(b.take(16) =~= b);
}

#[verifier::spinoff_prover]
pub proof fn codex_id()
    ensures
        sessions::stable("demo.codex.api"@) == 0x8d80_3116_11ca_42c1,
{
    let b = bytes::utf8("demo.codex.api"@);
    reveal_strlit("demo.codex.api");
    stamp::ascii_bytes("demo.codex.api"@);
    assert(0xcbf2_9ce4_8422_2325u64 ^ 100u64 == 0xcbf2_9ce4_8422_2341u64
        && 0xaf63_d94c_8601_e773u64 ^ 101u64 == 0xaf63_d94c_8601_e716u64
        && 0x0891_5307_b53b_aa62u64 ^ 109u64 == 0x0891_5307_b53b_aa0fu64
        && 0xca9a_2518_f461_f77du64 ^ 111u64 == 0xca9a_2518_f461_f712u64
        && 0xa5e4_1b67_4276_d396u64 ^ 46u64 == 0xa5e4_1b67_4276_d3b8u64
        && 0x596e_4875_efe9_c1a8u64 ^ 99u64 == 0x596e_4875_efe9_c1cbu64
        && 0xe026_eb66_aa34_4bf1u64 ^ 111u64 == 0xe026_eb66_aa34_4b9eu64
        && 0x166d_9d73_36dc_7d7au64 ^ 100u64 == 0x166d_9d73_36dc_7d1eu64
        && 0xf8bf_a8c6_38a8_99fau64 ^ 101u64 == 0xf8bf_a8c6_38a8_999fu64
        && 0x5645_67d2_467d_092du64 ^ 120u64 == 0x5645_67d2_467d_0955u64
        && 0x14f8_bf4d_c676_db6fu64 ^ 46u64 == 0x14f8_bf4d_c676_db41u64
        && 0x1988_5228_3bf6_8f73u64 ^ 97u64 == 0x1988_5228_3bf6_8f12u64
        && 0x5932_ac5d_e3f5_1b96u64 ^ 112u64 == 0x5932_ac5d_e3f5_1be6u64
        && 0x8636_c98a_597e_67d2u64 ^ 105u64 == 0x8636_c98a_597e_67bbu64) by (bit_vector);
    assert(b.take(0) =~= Seq::<u8>::empty());
    round(b, 0, 0xcbf2_9ce4_8422_2325, 100, 0xcbf2_9ce4_8422_2341, 0xaf63_d94c_8601_e773);
    round(b, 1, 0xaf63_d94c_8601_e773, 101, 0xaf63_d94c_8601_e716, 0x0891_5307_b53b_aa62);
    round(b, 2, 0x0891_5307_b53b_aa62, 109, 0x0891_5307_b53b_aa0f, 0xca9a_2518_f461_f77d);
    round(b, 3, 0xca9a_2518_f461_f77d, 111, 0xca9a_2518_f461_f712, 0xa5e4_1b67_4276_d396);
    round(b, 4, 0xa5e4_1b67_4276_d396, 46, 0xa5e4_1b67_4276_d3b8, 0x596e_4875_efe9_c1a8);
    round(b, 5, 0x596e_4875_efe9_c1a8, 99, 0x596e_4875_efe9_c1cb, 0xe026_eb66_aa34_4bf1);
    round(b, 6, 0xe026_eb66_aa34_4bf1, 111, 0xe026_eb66_aa34_4b9e, 0x166d_9d73_36dc_7d7a);
    round(b, 7, 0x166d_9d73_36dc_7d7a, 100, 0x166d_9d73_36dc_7d1e, 0xf8bf_a8c6_38a8_99fa);
    round(b, 8, 0xf8bf_a8c6_38a8_99fa, 101, 0xf8bf_a8c6_38a8_999f, 0x5645_67d2_467d_092d);
    round(b, 9, 0x5645_67d2_467d_092d, 120, 0x5645_67d2_467d_0955, 0x14f8_bf4d_c676_db6f);
    round(b, 10, 0x14f8_bf4d_c676_db6f, 46, 0x14f8_bf4d_c676_db41, 0x1988_5228_3bf6_8f73);
    round(b, 11, 0x1988_5228_3bf6_8f73, 97, 0x1988_5228_3bf6_8f12, 0x5932_ac5d_e3f5_1b96);
    round(b, 12, 0x5932_ac5d_e3f5_1b96, 112, 0x5932_ac5d_e3f5_1be6, 0x8636_c98a_597e_67d2);
    round(b, 13, 0x8636_c98a_597e_67d2, 105, 0x8636_c98a_597e_67bb, 0x8d80_3116_11ca_42c1);
    assert(b.take(14) =~= b);
}

#[verifier::spinoff_prover]
pub proof fn gemini_id()
    ensures
        sessions::stable("demo.gemini.notes"@) == 0x6212_df04_371a_13f8,
{
    let b = bytes::utf8("demo.gemini.notes"@);
    reveal_strlit("demo.gemini.notes");
    stamp::ascii_bytes("demo.gemini.notes"@);
    assert(0xcbf2_9ce4_8422_2325u64 ^ 100u64 == 0xcbf2_9ce4_8422_2341u64
        && 0xaf63_d94c_8601_e773u64 ^ 101u64 == 0xaf63_d94c_8601_e716u64
        && 0x0891_5307_b53b_aa62u64 ^ 109u64 == 0x0891_5307_b53b_aa0fu64
        && 0xca9a_2518_f461_f77du64 ^ 111u64 == 0xca9a_2518_f461_f712u64
        && 0xa5e4_1b67_4276_d396u64 ^ 46u64 == 0xa5e4_1b67_4276_d3b8u64
        && 0x596e_4875_efe9_c1a8u64 ^ 103u64 == 0x596e_4875_efe9_c1cfu64
        && 0xe026_ef66_aa34_52bdu64 ^ 101u64 == 0xe026_ef66_aa34_52d8u64
        && 0x167b_a373_36e8_c508u64 ^ 109u64 == 0x167b_a373_36e8_c565u64
        && 0x1cdc_21c6_4d87_6a9fu64 ^ 105u64 == 0x1cdc_21c6_4d87_6af6u64
        && 0x9178_59f5_bd1a_c002u64 ^ 110u64 == 0x9178_59f5_bd1a_c06cu64
        && 0x4a41_4890_5474_f784u64 ^ 105u64 == 0x4a41_4890_5474_f7edu64
        && 0xa1e6_3a3f_82c1_47b7u64 ^ 46u64 == 0xa1e6_3a3f_82c1_4799u64
        && 0xdb7c_92eb_2e6c_a8fbu64 ^ 110u64 == 0xdb7c_92eb_2e6c_a895u64
        && 0x6156_3a9f_e2a2_752fu64 ^ 111u64 == 0x6156_3a9f_e2a2_7540u64
        && 0x07fa_ddae_1a0d_3bc0u64 ^ 116u64 == 0x07fa_ddae_1a0d_3bb4u64
        && 0x9c82_62d6_447c_72dcu64 ^ 101u64 == 0x9c82_62d6_447c_72b9u64
        && 0x6e00_ab16_5f76_f05bu64 ^ 115u64 == 0x6e00_ab16_5f76_f028u64) by (bit_vector);
    assert(b.take(0) =~= Seq::<u8>::empty());
    round(b, 0, 0xcbf2_9ce4_8422_2325, 100, 0xcbf2_9ce4_8422_2341, 0xaf63_d94c_8601_e773);
    round(b, 1, 0xaf63_d94c_8601_e773, 101, 0xaf63_d94c_8601_e716, 0x0891_5307_b53b_aa62);
    round(b, 2, 0x0891_5307_b53b_aa62, 109, 0x0891_5307_b53b_aa0f, 0xca9a_2518_f461_f77d);
    round(b, 3, 0xca9a_2518_f461_f77d, 111, 0xca9a_2518_f461_f712, 0xa5e4_1b67_4276_d396);
    round(b, 4, 0xa5e4_1b67_4276_d396, 46, 0xa5e4_1b67_4276_d3b8, 0x596e_4875_efe9_c1a8);
    round(b, 5, 0x596e_4875_efe9_c1a8, 103, 0x596e_4875_efe9_c1cf, 0xe026_ef66_aa34_52bd);
    round(b, 6, 0xe026_ef66_aa34_52bd, 101, 0xe026_ef66_aa34_52d8, 0x167b_a373_36e8_c508);
    round(b, 7, 0x167b_a373_36e8_c508, 109, 0x167b_a373_36e8_c565, 0x1cdc_21c6_4d87_6a9f);
    round(b, 8, 0x1cdc_21c6_4d87_6a9f, 105, 0x1cdc_21c6_4d87_6af6, 0x9178_59f5_bd1a_c002);
    round(b, 9, 0x9178_59f5_bd1a_c002, 110, 0x9178_59f5_bd1a_c06c, 0x4a41_4890_5474_f784);
    round(b, 10, 0x4a41_4890_5474_f784, 105, 0x4a41_4890_5474_f7ed, 0xa1e6_3a3f_82c1_47b7);
    round(b, 11, 0xa1e6_3a3f_82c1_47b7, 46, 0xa1e6_3a3f_82c1_4799, 0xdb7c_92eb_2e6c_a8fb);
    round(b, 12, 0xdb7c_92eb_2e6c_a8fb, 110, 0xdb7c_92eb_2e6c_a895, 0x6156_3a9f_e2a2_752f);
    round(b, 13, 0x6156_3a9f_e2a2_752f, 111, 0x6156_3a9f_e2a2_7540, 0x07fa_ddae_1a0d_3bc0);
    round(b, 14, 0x07fa_ddae_1a0d_3bc0, 116, 0x07fa_ddae_1a0d_3bb4, 0x9c82_62d6_447c_72dc);
    round(b, 15, 0x9c82_62d6_447c_72dc, 101, 0x9c82_62d6_447c_72b9, 0x6e00_ab16_5f76_f05b);
    round(b, 16, 0x6e00_ab16_5f76_f05b, 115, 0x6e00_ab16_5f76_f028, 0x6212_df04_371a_13f8);
    assert(b.take(17) =~= b);
}

} // verus!

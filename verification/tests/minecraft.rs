use hawk_processing::minecraft::parse_color_codes;

fn assert_pcc(raw: &'static str, should_be: &'static str) {
    assert_eq!(parse_color_codes(String::from(raw)), String::from(should_be));
}

#[test]
fn colors_only() {
    assert_pcc("§2Dark green", "<span style=\"color: #00AA00;\">Dark green</span>");
    assert_pcc("§2§4Dark red", "<span style=\"color: #00AA00;\"></span><span style=\"color: #AA0000;\">Dark red</span>");
    assert_pcc("§5Purple §dpink", "<span style=\"color: #AA00AA;\">Purple </span><span style=\"color: #FF55FF;\">pink</span>");
    assert_pcc("Inherit and §dpink", "Inherit and <span style=\"color: #FF55FF;\">pink</span>");

    assert_pcc("§5Purple §Dpink", "<span style=\"color: #AA00AA;\">Purple </span><span style=\"color: #FF55FF;\">pink</span>");
    assert_pcc("Inherit and §Dpink", "Inherit and <span style=\"color: #FF55FF;\">pink</span>");
}

#[test]
fn formatters_only() {
    assert_pcc("§lBold", "<span style=\"font-weight: bold;\">Bold</span>");
    assert_pcc("§lBold + §oItalics + §mStrikethrough", "<span style=\"font-weight: bold;\">Bold + <span style=\"font-style: italic;\">Italics + <span style=\"text-decoration: line-through;\">Strikethrough</span></span></span>");
    assert_pcc("§l§m§n§oEVERYTHING", "<span style=\"font-weight: bold;\"><span style=\"text-decoration: line-through;\"><span style=\"text-decoration: underline;\"><span style=\"font-style: italic;\">EVERYTHING</span></span></span></span>");

    assert_pcc("§LBold", "<span style=\"font-weight: bold;\">Bold</span>");
    assert_pcc("§LBold + §oItalics + §mStrikethrough", "<span style=\"font-weight: bold;\">Bold + <span style=\"font-style: italic;\">Italics + <span style=\"text-decoration: line-through;\">Strikethrough</span></span></span>");
    assert_pcc("§L§M§N§OEVERYTHING", "<span style=\"font-weight: bold;\"><span style=\"text-decoration: line-through;\"><span style=\"text-decoration: underline;\"><span style=\"font-style: italic;\">EVERYTHING</span></span></span></span>");
}

#[test]
fn both_colors_and_formatters() {
    assert_pcc("§2Dark §lgreen", "<span style=\"color: #00AA00;\">Dark <span style=\"font-weight: bold;\">green</span></span>");
    assert_pcc("§2Dark §lgreen §band aqua", "<span style=\"color: #00AA00;\">Dark <span style=\"font-weight: bold;\">green </span></span><span style=\"color: #55FFFF;\">and aqua</span>");

    assert_pcc("§2Dark §Lgreen", "<span style=\"color: #00AA00;\">Dark <span style=\"font-weight: bold;\">green</span></span>");
    assert_pcc("§2Dark §Lgreen §Band aqua", "<span style=\"color: #00AA00;\">Dark <span style=\"font-weight: bold;\">green </span></span><span style=\"color: #55FFFF;\">and aqua</span>");
}

#[test]
fn colors_resets_formatters() {
    assert_pcc("§lBold §6No longer bold (but gold!)", "<span style=\"font-weight: bold;\">Bold </span><span style=\"color: #FFAA00;\">No longer bold (but gold!)</span>");
    assert_pcc("§LBold §6No longer bold (but gold!)", "<span style=\"font-weight: bold;\">Bold </span><span style=\"color: #FFAA00;\">No longer bold (but gold!)</span>");
}

#[test]
fn reset() {
    assert_pcc("§2Dark §rgreen", "<span style=\"color: #00AA00;\">Dark </span>green");
    assert_pcc("§2§4Dark §rred", "<span style=\"color: #00AA00;\"></span><span style=\"color: #AA0000;\">Dark </span>red");
    assert_pcc("§5Purple §dpi§rnk", "<span style=\"color: #AA00AA;\">Purple </span><span style=\"color: #FF55FF;\">pi</span>nk");
    assert_pcc("Inherit and §dpi§rnk", "Inherit and <span style=\"color: #FF55FF;\">pi</span>nk");

    assert_pcc("§2Dark §Rgreen", "<span style=\"color: #00AA00;\">Dark </span>green");
    assert_pcc("§2§4Dark §Rred", "<span style=\"color: #00AA00;\"></span><span style=\"color: #AA0000;\">Dark </span>red");
    assert_pcc("§5Purple §dpi§Rnk", "<span style=\"color: #AA00AA;\">Purple </span><span style=\"color: #FF55FF;\">pi</span>nk");
    assert_pcc("Inherit and §dpi§Rnk", "Inherit and <span style=\"color: #FF55FF;\">pi</span>nk");
}

#[test]
fn not_a_formatter() {
    assert_pcc("§2Dark §r§green", "<span style=\"color: #00AA00;\">Dark </span>§green");
    assert_pcc("§i", "§i");
    assert_pcc("§", "§");
}

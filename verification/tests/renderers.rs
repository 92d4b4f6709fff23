use mdrender::HtmlGenerateConfig;
use mdrender::HwpConversionStatus;
use mdrender::HwpGenerateConfig;
use mdrender::markdown_to_html;
use mdrender::markdown_to_hwp;
use mdrender::markdown_to_latex;

#[test]
fn convert_test() {
    assert_eq!(
        markdown_to_html(
            "**a**",
            &HtmlGenerateConfig {
                inline_image_max_height: 10
            }
        )
        .unwrap(),
        "<p><span class='font-weight-bold'>a</span></p>".to_owned()
    );

    assert_eq!(
        markdown_to_html(
            "**한글도 되나요**",
            &HtmlGenerateConfig {
                inline_image_max_height: 10
            }
        )
        .unwrap(),
        "<p><span class='font-weight-bold'>한글도 되나요</span></p>".to_owned()
    );
}

#[test]
fn latex_include_image() {
    assert_eq!(
        markdown_to_latex("a ![a](/image/hello)", "/home", false).unwrap(),
        "\na \n\\begin{figure}[H]\n\\centering\n\\includegraphics[max width=0.7\\linewidth]{/home/image/hello}\n\\end{figure}\n\n".to_owned()
    );
}

#[test]
fn latex_ignore_image() {
    assert_eq!(
        markdown_to_latex("a ![a](/image/hello)", "/home", /*no_image=*/ true).unwrap(),
        "\na \n".to_owned()
    );
}

#[test]
fn hwp_test() {
    let mut hwp_conversion_status = HwpConversionStatus {
        bin_item: 3,
        inst_id: 1,
        z_order: 1,
    };

    assert_eq!(
        markdown_to_hwp(
            "a ![](123,456) \n\n b",
            &vec![HwpGenerateConfig {
                entry_name: "problem_start".to_owned(),
                para_shape: 17,
                para_style: 1,
                char_shape: 13
            }, HwpGenerateConfig {
                entry_name: "default".to_owned(),
                para_shape: 2,
                para_style: 3,
                char_shape: 4
            }],
            &mut hwp_conversion_status
        )
        .unwrap(),
        "<P ParaShape=\"17\" Style=\"1\"><TEXT CharShape=\"13\"><CHAR>a </CHAR></TEXT><TEXT CharShape=\"0\"><PICTURE Reverse=\"false\"><SHAPEOBJECT InstId=\"1\" Lock=\"false\" NumberingType=\"Figure\" ZOrder=\"1\"><SIZE Height=\"123\" HeightRelTo=\"Absolute\" Protect=\"false\" Width=\"456\" WidthRelTo=\"Absolute\"/><POSITION AffectLSpacing=\"false\" AllowOverlap=\"false\" FlowWithText=\"true\" HoldAnchorAndSO=\"false\" HorzAlign=\"Left\" HorzOffset=\"0\" HorzRelTo=\"Para\" TreatAsChar=\"true\" VertAlign=\"Top\" VertOffset=\"0\" VertRelTo=\"Para\"/><OUTSIDEMARGIN Bottom=\"0\" Left=\"0\" Right=\"0\" Top=\"0\"/><SHAPECOMMENT></SHAPECOMMENT></SHAPEOBJECT><SHAPECOMPONENT CurHeight=\"123\" CurWidth=\"456\" GroupLevel=\"0\" HorzFlip=\"false\" InstID=\"2\" OriHeight=\"123\" OriWidth=\"456\" VertFlip=\"false\" XPos=\"0\" YPos=\"0\"><ROTATIONINFO Angle=\"0\" CenterX=\"228\" CenterY=\"61\" Rotate=\"1\"/><RENDERINGINFO><TRANSMATRIX E1=\"1.00000\" E2=\"0.00000\" E3=\"0.00000\" E4=\"0.00000\" E5=\"1.00000\" E6=\"0.00000\"/><SCAMATRIX E1=\"0.80000\" E2=\"0.00000\" E3=\"0.00000\" E4=\"0.00000\" E5=\"0.80000\" E6=\"0.00000\"/><ROTMATRIX E1=\"1.00000\" E2=\"0.00000\" E3=\"0.00000\" E4=\"0.00000\" E5=\"1.00000\" E6=\"0.00000\"/></RENDERINGINFO></SHAPECOMPONENT><IMAGERECT X0=\"0\" X1=\"456\" X2=\"456\" X3=\"0\" Y0=\"0\" Y1=\"0\" Y2=\"123\" Y3=\"123\"/><IMAGECLIP Bottom=\"123\" Left=\"0\" Right=\"456\" Top=\"0\"/><INSIDEMARGIN Bottom=\"0\" Left=\"0\" Right=\"0\" Top=\"0\"/><IMAGEDIM Height=\"123\" Width=\"456\"/><IMAGE Alpha=\"0\" BinItem=\"3\" Bright=\"0\" Contrast=\"0\" Effect=\"RealPic\"/><EFFECTS/></PICTURE></TEXT><TEXT CharShape=\"13\"><CHAR> </CHAR></TEXT></P><P ParaShape=\"2\" Style=\"3\"><TEXT CharShape=\"4\"><CHAR> b</CHAR></TEXT></P>"
            .to_owned()
    );

    assert_eq!(hwp_conversion_status.bin_item, 4);
}

#[test]
fn hwp_single_entry_minimal() {
    let mut status = HwpConversionStatus {
        bin_item: 0,
        inst_id: 0,
        z_order: 0,
    };
    assert_eq!(
        markdown_to_hwp(
            "a",
            &vec![HwpGenerateConfig {
                entry_name: "x".to_owned(),
                para_shape: 17,
                para_style: 1,
                char_shape: 13
            }],
            &mut status
        )
        .unwrap(),
        "<P ParaShape=\"17\" Style=\"1\"><TEXT CharShape=\"13\"><CHAR>a</CHAR></TEXT></P>"
    );
    assert_eq!(status.bin_item, 0);
    assert_eq!(status.inst_id, 0);
    assert_eq!(status.z_order, 0);
}

#[test]
fn hwp_repeated_conversion_is_identical() {
    let configs = vec![HwpGenerateConfig {
        entry_name: "x".to_owned(),
        para_shape: 1,
        para_style: 2,
        char_shape: 3,
    }];
    let mut status1 = HwpConversionStatus {
        bin_item: 7,
        inst_id: 9,
        z_order: 11,
    };
    let mut status2 = HwpConversionStatus {
        bin_item: 7,
        inst_id: 9,
        z_order: 11,
    };
    let out1 = markdown_to_hwp("a ![](5,6) b", &configs, &mut status1).unwrap();
    let out2 = markdown_to_hwp("a ![](5,6) b", &configs, &mut status2).unwrap();
    assert_eq!(out1, out2);
    assert_eq!(status1.bin_item, status2.bin_item);
    assert_eq!(status1.inst_id, status2.inst_id);
    assert_eq!(status1.z_order, status2.z_order);
}

#[test]
fn html_empty_document() {
    assert_eq!(
        markdown_to_html(
            "",
            &HtmlGenerateConfig {
                inline_image_max_height: 10
            }
        )
        .unwrap(),
        ""
    );
}

#[test]
fn latex_empty_document() {
    assert_eq!(markdown_to_latex("", "/home", false).unwrap(), "");
}

#[test]
fn hwp_empty_document() {
    let mut status = HwpConversionStatus {
        bin_item: 5,
        inst_id: 6,
        z_order: 7,
    };
    assert_eq!(
        markdown_to_hwp(
            "",
            &vec![HwpGenerateConfig {
                entry_name: "x".to_owned(),
                para_shape: 1,
                para_style: 1,
                char_shape: 1
            }],
            &mut status
        )
        .unwrap(),
        ""
    );
    assert_eq!(status.bin_item, 5);
    assert_eq!(status.inst_id, 6);
    assert_eq!(status.z_order, 7);
}

#[test]
fn html_escapes_markup_characters() {
    assert_eq!(
        markdown_to_html(
            "a&b<c>d",
            &HtmlGenerateConfig {
                inline_image_max_height: 10
            }
        )
        .unwrap(),
        "<p>a&amp;b&lt;c&gt;d</p>"
    );
}

#[test]
fn html_image_tag_caps_height() {
    assert_eq!(
        markdown_to_html(
            "![alt](path)",
            &HtmlGenerateConfig {
                inline_image_max_height: 10
            }
        )
        .unwrap(),
        "<p><img src='path' alt='alt' style='max-height:10px'/></p>"
    );
}

#[test]
fn html_multiple_paragraphs() {
    assert_eq!(
        markdown_to_html(
            "a\n\nb",
            &HtmlGenerateConfig {
                inline_image_max_height: 10
            }
        )
        .unwrap(),
        "<p>a</p><p>b</p>"
    );
}

#[test]
fn html_unmatched_bold_marker_is_text() {
    assert_eq!(
        markdown_to_html(
            "**a",
            &HtmlGenerateConfig {
                inline_image_max_height: 10
            }
        )
        .unwrap(),
        "<p>**a</p>"
    );
}

#[test]
fn latex_escapes_special_characters() {
    assert_eq!(
        markdown_to_latex("100% a_b #1 {x} $5", "/home", false).unwrap(),
        "\n100\\% a\\_b \\#1 \\{x\\} \\$5\n"
    );
    assert_eq!(
        markdown_to_latex("a\\b", "/home", false).unwrap(),
        "\na\\textbackslash{}b\n"
    );
}

#[test]
fn latex_bold() {
    assert_eq!(
        markdown_to_latex("**a** b", "/home", false).unwrap(),
        "\n\\textbf{a} b\n"
    );
}

#[test]
fn latex_path_join_single_separator() {
    assert_eq!(
        markdown_to_latex("![a](/image/hello)", "/home/", false).unwrap(),
        "\n\n\\begin{figure}[H]\n\\centering\n\\includegraphics[max width=0.7\\linewidth]{/home/image/hello}\n\\end{figure}\n\n"
    );
    assert_eq!(
        markdown_to_latex("![a](img)", "home", false).unwrap(),
        "\n\n\\begin{figure}[H]\n\\centering\n\\includegraphics[max width=0.7\\linewidth]{home/img}\n\\end{figure}\n\n"
    );
}

#[test]
fn hwp_bold_merges_into_text_run() {
    let mut status = HwpConversionStatus {
        bin_item: 0,
        inst_id: 0,
        z_order: 0,
    };
    assert_eq!(
        markdown_to_hwp(
            "a **b** c",
            &vec![HwpGenerateConfig {
                entry_name: "x".to_owned(),
                para_shape: 1,
                para_style: 2,
                char_shape: 3
            }],
            &mut status
        )
        .unwrap(),
        "<P ParaShape=\"1\" Style=\"2\"><TEXT CharShape=\"3\"><CHAR>a b c</CHAR></TEXT></P>"
    );
}

#[test]
fn hwp_escapes_char_content() {
    let mut status = HwpConversionStatus {
        bin_item: 0,
        inst_id: 0,
        z_order: 0,
    };
    assert_eq!(
        markdown_to_hwp(
            "a<b&c",
            &vec![HwpGenerateConfig {
                entry_name: "x".to_owned(),
                para_shape: 1,
                para_style: 2,
                char_shape: 3
            }],
            &mut status
        )
        .unwrap(),
        "<P ParaShape=\"1\" Style=\"2\"><TEXT CharShape=\"3\"><CHAR>a&lt;b&amp;c</CHAR></TEXT></P>"
    );
}

#[test]
fn hwp_later_paragraphs_use_last_entry() {
    let mut status = HwpConversionStatus {
        bin_item: 0,
        inst_id: 0,
        z_order: 0,
    };
    assert_eq!(
        markdown_to_hwp(
            "a\n\nb\n\nc",
            &vec![
                HwpGenerateConfig {
                    entry_name: "first".to_owned(),
                    para_shape: 1,
                    para_style: 2,
                    char_shape: 3
                },
                HwpGenerateConfig {
                    entry_name: "default".to_owned(),
                    para_shape: 4,
                    para_style: 5,
                    char_shape: 6
                }
            ],
            &mut status
        )
        .unwrap(),
        "<P ParaShape=\"1\" Style=\"2\"><TEXT CharShape=\"3\"><CHAR>a</CHAR></TEXT></P>\
         <P ParaShape=\"4\" Style=\"5\"><TEXT CharShape=\"6\"><CHAR>b</CHAR></TEXT></P>\
         <P ParaShape=\"4\" Style=\"5\"><TEXT CharShape=\"6\"><CHAR>c</CHAR></TEXT></P>"
    );
}

#[test]
fn hwp_counters_advance_per_image() {
    let mut status = HwpConversionStatus {
        bin_item: 0,
        inst_id: 0,
        z_order: 0,
    };
    let out = markdown_to_hwp(
        "![](1,2) ![](3,4)",
        &vec![HwpGenerateConfig {
            entry_name: "x".to_owned(),
            para_shape: 1,
            para_style: 2,
            char_shape: 3,
        }],
        &mut status,
    )
    .unwrap();
    assert_eq!(status.bin_item, 2);
    assert_eq!(status.inst_id, 4);
    assert_eq!(status.z_order, 4);
    assert!(out.contains("InstId=\"0\""));
    assert!(out.contains("InstID=\"1\""));
    assert!(out.contains("BinItem=\"0\""));
    assert!(out.contains("InstId=\"2\""));
    assert!(out.contains("InstID=\"3\""));
    assert!(out.contains("BinItem=\"1\""));
}

#[test]
fn hwp_negative_style_identifiers() {
    let mut status = HwpConversionStatus {
        bin_item: 0,
        inst_id: 0,
        z_order: 0,
    };
    assert_eq!(
        markdown_to_hwp(
            "a",
            &vec![HwpGenerateConfig {
                entry_name: "x".to_owned(),
                para_shape: -5,
                para_style: -1,
                char_shape: 0
            }],
            &mut status
        )
        .unwrap(),
        "<P ParaShape=\"-5\" Style=\"-1\"><TEXT CharShape=\"0\"><CHAR>a</CHAR></TEXT></P>"
    );
}

#[test]
fn hwp_korean_text_passes_through() {
    let mut status = HwpConversionStatus {
        bin_item: 0,
        inst_id: 0,
        z_order: 0,
    };
    assert_eq!(
        markdown_to_hwp(
            "한글도 되나요",
            &vec![HwpGenerateConfig {
                entry_name: "x".to_owned(),
                para_shape: 1,
                para_style: 2,
                char_shape: 3
            }],
            &mut status
        )
        .unwrap(),
        "<P ParaShape=\"1\" Style=\"2\"><TEXT CharShape=\"3\"><CHAR>한글도 되나요</CHAR></TEXT></P>"
    );
}

#[test]
fn hwp_rejects_zero_entries() {
    let mut status = HwpConversionStatus {
        bin_item: 1,
        inst_id: 2,
        z_order: 3,
    };
    let r = markdown_to_hwp("a", &vec![], &mut status);
    assert_eq!(r.unwrap_err(), "no style entries were supplied");
    assert_eq!(status.bin_item, 1);
    assert_eq!(status.inst_id, 2);
    assert_eq!(status.z_order, 3);
}

#[test]
fn hwp_rejects_malformed_dimensions() {
    let entries = vec![HwpGenerateConfig {
        entry_name: "x".to_owned(),
        para_shape: 1,
        para_style: 2,
        char_shape: 3,
    }];
    let mut status = HwpConversionStatus {
        bin_item: 0,
        inst_id: 0,
        z_order: 0,
    };
    for md in ["![](abc)", "![](12)", "![]()", "![](12,)", "![](,34)", "![](12,3x)"] {
        let r = markdown_to_hwp(md, &entries, &mut status);
        assert_eq!(
            r.unwrap_err(),
            "an image reference carries a malformed dimension pair"
        );
        assert_eq!(status.bin_item, 0);
    }
}

#[test]
fn hwp_rejects_counter_overflow() {
    let entries = vec![HwpGenerateConfig {
        entry_name: "x".to_owned(),
        para_shape: 1,
        para_style: 2,
        char_shape: 3,
    }];
    let mut status = HwpConversionStatus {
        bin_item: i32::MAX,
        inst_id: 0,
        z_order: 0,
    };
    let r = markdown_to_hwp("![](1,2)", &entries, &mut status);
    assert_eq!(
        r.unwrap_err(),
        "the conversion status counters would overflow"
    );
    assert_eq!(status.bin_item, i32::MAX);

    let mut status2 = HwpConversionStatus {
        bin_item: 0,
        inst_id: i32::MAX - 1,
        z_order: 0,
    };
    let r2 = markdown_to_hwp("![](1,2)", &entries, &mut status2);
    assert_eq!(
        r2.unwrap_err(),
        "the conversion status counters would overflow"
    );
    assert_eq!(status2.inst_id, i32::MAX - 1);
}

#[test]
fn null_bytes_are_rejected() {
    assert_eq!(
        markdown_to_html(
            "a\0b",
            &HtmlGenerateConfig {
                inline_image_max_height: 10
            }
        )
        .unwrap_err(),
        "the markdown input contains an embedded null byte"
    );
    assert_eq!(
        markdown_to_latex("a\0b", "/home", false).unwrap_err(),
        "the markdown input contains an embedded null byte"
    );
    assert_eq!(
        markdown_to_latex("a", "/ho\0me", false).unwrap_err(),
        "the image directory path contains an embedded null byte"
    );
    let mut status = HwpConversionStatus {
        bin_item: 0,
        inst_id: 0,
        z_order: 0,
    };
    assert_eq!(
        markdown_to_hwp(
            "a",
            &vec![HwpGenerateConfig {
                entry_name: "x\0y".to_owned(),
                para_shape: 1,
                para_style: 2,
                char_shape: 3
            }],
            &mut status
        )
        .unwrap_err(),
        "a style entry name contains an embedded null byte"
    );
    assert_eq!(
        markdown_to_hwp(
            "a\0b",
            &vec![HwpGenerateConfig {
                entry_name: "x".to_owned(),
                para_shape: 1,
                para_style: 2,
                char_shape: 3
            }],
            &mut status
        )
        .unwrap_err(),
        "the markdown input contains an embedded null byte"
    );
}

#[test]
fn latex_suppression_preserves_everything_else() {
    assert_eq!(
        markdown_to_latex("x **y** ![a](1) z", "/home", true).unwrap(),
        "\nx \\textbf{y}  z\n"
    );
}

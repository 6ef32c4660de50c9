use resumark::settings::PaperSize;

#[test]
fn paper_size_names_are_case_insensitive() {
    assert_eq!("letter".parse(), Ok(PaperSize::Letter));
    assert_eq!("A4".parse(), Ok(PaperSize::A4));
}

#[test]
fn unsupported_paper_size_names_are_clear() {
    let error = "legal"
        .parse::<PaperSize>()
        .expect_err("legal paper is outside the v1 policy");

    assert_eq!(
        error.message(),
        "unsupported paper size `legal`; use `letter` or `a4`"
    );
}

#[test]
fn paper_names_read_back_as_the_same_paper() {
    for paper in [PaperSize::Letter, PaperSize::A4] {
        assert_eq!(PaperSize::parse_name(paper.as_str()), Ok(paper));
    }
    assert_eq!(PaperSize::default(), PaperSize::Letter);
    assert_eq!(PaperSize::parse_name("LeTtEr"), Ok(PaperSize::Letter));
}

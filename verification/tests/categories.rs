use terraform_module_data::category::{
    categories_of, chart_label_of, is_selected, Category,
};

const ALL: [Category; 5] = [
    Category::Data,
    Category::Compute,
    Category::Serverless,
    Category::Networking,
    Category::Other,
];

#[test]
fn every_listed_module_has_a_category() {
    let mut listed = 0;
    for c in ALL {
        for name in c.member_names() {
            let found = categories_of(name);
            assert!(!found.is_empty());
            assert!(found.contains(&c));
            assert!(c.contains(name));
            listed += 1;
        }
    }
    assert_eq!(listed, 15 + 8 + 13 + 11 + 14);
}

#[test]
fn an_unknown_module_has_no_category() {
    assert_eq!(categories_of("not-a-module"), vec![]);
    assert_eq!(categories_of(""), vec![]);
    assert_eq!(categories_of("VPC"), vec![]);
    assert_eq!(categories_of("vpc "), vec![]);
    assert_eq!(categories_of("rds-"), vec![]);
    for c in ALL {
        assert!(!c.contains("not-a-module"));
    }
}

#[test]
fn a_module_may_have_several_categories() {
    assert_eq!(categories_of("rds-proxy"), vec![Category::Serverless, Category::Networking]);
    assert_eq!(categories_of("lambda"), vec![Category::Compute, Category::Serverless]);
    assert_eq!(categories_of("app-runner"), vec![Category::Compute, Category::Serverless]);
    assert_eq!(categories_of("memory-db"), vec![Category::Data, Category::Serverless]);
    assert_eq!(categories_of("vpc"), vec![Category::Networking]);
    assert_eq!(categories_of("eks"), vec![Category::Compute]);
    assert_eq!(categories_of("s3-object"), vec![Category::Data]);
    assert_eq!(categories_of("ssm-parameter"), vec![Category::Other]);
}

#[test]
fn member_lists_are_the_table() {
    assert_eq!(
        Category::Compute.member_names(),
        vec![
            "app-runner",
            "autoscaling",
            "ec2-instance",
            "ecr",
            "ecs",
            "eks",
            "eks-pod-identity",
            "lambda"
        ]
    );
    assert_eq!(Category::Data.member_names().len(), 15);
    assert_eq!(Category::Serverless.member_names().len(), 13);
    assert_eq!(Category::Networking.member_names().len(), 11);
    assert_eq!(Category::Other.member_names().len(), 14);
    assert_eq!(Category::Other.member_names()[0], "acm");
    assert_eq!(Category::Networking.member_names()[10], "vpn-gateway");
}

#[test]
fn categories_have_names() {
    assert_eq!(Category::Data.label(), "data");
    assert_eq!(Category::Compute.label(), "compute");
    assert_eq!(Category::Serverless.label(), "serverless");
    assert_eq!(Category::Networking.label(), "networking");
    assert_eq!(Category::Other.label(), "other");
    for c in ALL {
        assert_eq!(Category::named(c.label()), Some(c));
    }
    assert_eq!(Category::named("network"), None);
    assert_eq!(Category::named("all"), None);
    assert_eq!(Category::named("Data"), None);
    assert_eq!(chart_label_of(None), "all");
    assert_eq!(chart_label_of(Some(Category::Networking)), "networking");
}

#[test]
fn selection_by_category() {
    assert!(is_selected(None, "anything"));
    assert!(is_selected(Some(Category::Compute), "eks"));
    assert!(!is_selected(Some(Category::Data), "eks"));
    assert!(!is_selected(Some(Category::Compute), "anything"));
}

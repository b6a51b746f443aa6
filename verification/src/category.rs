//! The categories that modules are grouped under in reports. The table of
//! members is fixed; a module may stand in several categories or in none.

use vstd::prelude::*;
use crate::text::same_text;

verus! {

/// A group of modules that are reported together.
#[derive(Debug, Clone, Copy, PartialEq, Eq, Structural)]
pub enum Category {
    Data,
    Compute,
    Serverless,
    Networking,
    Other,
}

/// The name of a category, in lower case.
pub open spec fn label_text(c: Category) -> Seq<char> {
    match c {
        Category::Data => "data"@,
        Category::Compute => "compute"@,
        Category::Serverless => "serverless"@,
        Category::Networking => "networking"@,
        Category::Other => "other"@,
    }
}

/// The modules of a category.
pub open spec fn members(c: Category) -> Seq<Seq<char>> {
    match c {
        Category::Data => seq![
            "batch"@,
            "dms"@,
            "dynamodb-table"@,
            "efs"@,
            "elasticache"@,
            "emr"@,
            "fsx"@,
            "memory-db"@,
            "msk-kafka-cluster"@,
            "opensearch"@,
            "rds"@,
            "rds-aurora"@,
            "redshift"@,
            "s3-bucket"@,
            "s3-object"@,
        ],
        Category::Compute => seq![
            "app-runner"@,
            "autoscaling"@,
            "ec2-instance"@,
            "ecr"@,
            "ecs"@,
            "eks"@,
            "eks-pod-identity"@,
            "lambda"@,
        ],
        Category::Serverless => seq![
            "apigateway-v2"@,
            "app-runner"@,
            "appconfig"@,
            "appsync"@,
            "cloudfront"@,
            "cloudwatch"@,
            "eventbridge"@,
            "lambda"@,
            "memory-db"@,
            "rds-proxy"@,
            "sns"@,
            "sqs"@,
            "step-functions"@,
        ],
        Category::Networking => seq![
            "alb"@,
            "customer-gateway"@,
            "elb"@,
            "global-accelerator"@,
            "network-firewall"@,
            "rds-proxy"@,
            "route53"@,
            "security-group"@,
            "transit-gateway"@,
            "vpc"@,
            "vpn-gateway"@,
        ],
        Category::Other => seq![
            "acm"@,
            "atlantis"@,
            "datadog-forwarders"@,
            "ebs-optimized"@,
            "iam"@,
            "key-pair"@,
            "kms"@,
            "managed-service-grafana"@,
            "managed-service-prometheus"@,
            "notify-slack"@,
            "pricing"@,
            "secrets-manager"@,
            "solutions"@,
            "ssm-parameter"@,
        ],
    }
}

/// `c` alone if `module` is one of its members, nothing otherwise.
pub open spec fn if_member(c: Category, module: Seq<char>) -> Seq<Category> {
    if members(c).contains(module) {
        seq![c]
    } else {
        Seq::empty()
    }
}

/// The categories that `module` is a member of, in the order in which
/// [`Category`] lists them.
pub open spec fn categories(module: Seq<char>) -> Seq<Category> {
    if_member(Category::Data, module) + if_member(Category::Compute, module) + if_member(
        Category::Serverless,
        module,
    ) + if_member(Category::Networking, module) + if_member(Category::Other, module)
}

/// The texts of a list of strings.
pub open spec fn names_of(names: Seq<&'static str>) -> Seq<Seq<char>> {
    Seq::new(names.len(), |i: int| names[i]@)
}

impl Category {
    /// The name of the category, in lower case.
    pub fn label(self) -> (name: &'static str)
        ensures
            name@ == label_text(self),
    {
        match self {
            Category::Data => "data",
            Category::Compute => "compute",
            Category::Serverless => "serverless",
            Category::Networking => "networking",
            Category::Other => "other",
        }
    }

    /// The category of that name, if there is one.
    pub fn named(name: &str) -> (found: Option<Category>)
        ensures
            found matches Some(c) ==> label_text(c) == name@,
            found is None ==> forall|c: Category| label_text(c) != name@,
    {
        if same_text(name, "data") {
            Some(Category::Data)
        } else if same_text(name, "compute") {
            Some(Category::Compute)
        } else if same_text(name, "serverless") {
            Some(Category::Serverless)
        } else if same_text(name, "networking") {
            Some(Category::Networking)
        } else if same_text(name, "other") {
            Some(Category::Other)
        } else {
            None
        }
    }

    /// The modules of the category.
    pub fn member_names(self) -> (names: Vec<&'static str>)
        ensures
            names_of(names@) == members(self),
    {
        let names = match self {
            Category::Data => vec![
                "batch",
                "dms",
                "dynamodb-table",
                "efs",
                "elasticache",
                "emr",
                "fsx",
                "memory-db",
                "msk-kafka-cluster",
                "opensearch",
                "rds",
                "rds-aurora",
                "redshift",
                "s3-bucket",
                "s3-object",
            ],
            Category::Compute => vec![
                "app-runner",
                "autoscaling",
                "ec2-instance",
                "ecr",
                "ecs",
                "eks",
                "eks-pod-identity",
                "lambda",
            ],
            Category::Serverless => vec![
                "apigateway-v2",
                "app-runner",
                "appconfig",
                "appsync",
                "cloudfront",
                "cloudwatch",
                "eventbridge",
                "lambda",
                "memory-db",
                "rds-proxy",
                "sns",
                "sqs",
                "step-functions",
            ],
            Category::Networking => vec![
                "alb",
                "customer-gateway",
                "elb",
                "global-accelerator",
                "network-firewall",
                "rds-proxy",
                "route53",
                "security-group",
                "transit-gateway",
                "vpc",
                "vpn-gateway",
            ],
            Category::Other => vec![
                "acm",
                "atlantis",
                "datadog-forwarders",
                "ebs-optimized",
                "iam",
                "key-pair",
                "kms",
                "managed-service-grafana",
                "managed-service-prometheus",
                "notify-slack",
                "pricing",
                "secrets-manager",
                "solutions",
                "ssm-parameter",
            ],
        };
        assert(names_of(names@) =~= members(self));
        names
    }

    /// Whether `module` is a member of the category.
    pub fn contains(self, module: &str) -> (yes: bool)
        ensures
            yes == members(self).contains(module@),
    {
        let names = self.member_names();
        let mut i: usize = 0;
        while i < names.len()
            invariant
                i <= names.len(),
                names_of(names@) == members(self),
                forall|j: int| 0 <= j < i ==> members(self)[j] != module@,
            decreases names.len() - i,
        {
            assert(names_of(names@)[i as int] == names@[i as int]@);
            if same_text(names[i], module) {
                assert(members(self)[i as int] == module@);
                return true;
            }
            i = i + 1;
        }
        assert(names_of(names@).len() == names.len());
        false
    }
}

/// The categories that `module` is a member of. A module that the table does
/// not list is in none.
pub fn categories_of(module: &str) -> (found: Vec<Category>)
    ensures
        found@ == categories(module@),
{
    let mut found: Vec<Category> = Vec::new();
    if Category::Data.contains(module) {
        found.push(Category::Data);
    }
    if Category::Compute.contains(module) {
        found.push(Category::Compute);
    }
    if Category::Serverless.contains(module) {
        found.push(Category::Serverless);
    }
    if Category::Networking.contains(module) {
        found.push(Category::Networking);
    }
    if Category::Other.contains(module) {
        found.push(Category::Other);
    }
    assert(found@ =~= categories(module@));
    found
}

/// Whether a module belongs in a chart: in the chart of a category its
/// members do, in the chart of all modules every module does.
pub open spec fn selected(category: Option<Category>, module: Seq<char>) -> bool {
    match category {
        Some(c) => members(c).contains(module),
        None => true,
    }
}

/// Whether `module` belongs in the chart of `category`, or in the chart of
/// all modules where `category` is `None`.
pub fn is_selected(category: Option<Category>, module: &str) -> (yes: bool)
    ensures
        yes == selected(category, module@),
{
    match category {
        Some(c) => c.contains(module),
        None => true,
    }
}

/// The label under which a chart is titled: the category's name, or "all"
/// for the chart of all modules.
pub open spec fn chart_label(category: Option<Category>) -> Seq<char> {
    match category {
        Some(c) => label_text(c),
        None => "all"@,
    }
}

/// The label under which the chart of `category` is titled.
pub fn chart_label_of(category: Option<Category>) -> (name: &'static str)
    ensures
        name@ == chart_label(category),
        name@.len() > 0,
{
    proof {
        reveal_strlit("all");
        reveal_strlit("data");
        reveal_strlit("compute");
        reveal_strlit("serverless");
        reveal_strlit("networking");
        reveal_strlit("other");
    }
    match category {
        Some(c) => c.label(),
        None => "all",
    }
}

/// A module is in exactly the categories that list it: every module that the
/// table lists is in at least one category, and a module that the table does
/// not list is in none.
pub proof fn lemma_categories_match_table(module: Seq<char>)
    ensures
        forall|c: Category| categories(module).contains(c) <==> members(c).contains(module),
        categories(module).len() == 0 <==> forall|c: Category| !members(c).contains(module),
        categories(module).no_duplicates(),
{
    let found = categories(module);
    let data = if_member(Category::Data, module);
    let compute = if_member(Category::Compute, module);
    let serverless = if_member(Category::Serverless, module);
    let networking = if_member(Category::Networking, module);
    let other = if_member(Category::Other, module);
    let a = data.len() as int;
    let b = a + compute.len();
    let c3 = b + serverless.len();
    let d = c3 + networking.len();
    assert forall|c: Category| members(c).contains(module) implies found.contains(c) by {
        match c {
            Category::Data => {
                assert(found[0] == c);
            },
            Category::Compute => {
                assert(found[a] == c);
            },
            Category::Serverless => {
                assert(found[b] == c);
            },
            Category::Networking => {
                assert(found[c3] == c);
            },
            Category::Other => {
                assert(found[d] == c);
            },
        }
    }
    assert forall|c: Category| found.contains(c) implies members(c).contains(module) by {
        let i = choose|i: int| 0 <= i < found.len() && found[i] == c;
        if i < a {
        } else if i < b {
            assert(found[i] == compute[i - a]);
        } else if i < c3 {
            assert(found[i] == serverless[i - b]);
        } else if i < d {
            assert(found[i] == networking[i - c3]);
        } else {
            assert(found[i] == other[i - d]);
        }
    }
    if found.len() > 0 {
        assert(found.contains(found[0]));
    }
    assert forall|i: int, j: int| 0 <= i < found.len() && 0 <= j < found.len() && i != j implies found[i]
        != found[j] by {
        assert(found[i] == if i < a {
            Category::Data
        } else if i < b {
            Category::Compute
        } else if i < c3 {
            Category::Serverless
        } else if i < d {
            Category::Networking
        } else {
            Category::Other
        });
        assert(found[j] == if j < a {
            Category::Data
        } else if j < b {
            Category::Compute
        } else if j < c3 {
            Category::Serverless
        } else if j < d {
            Category::Networking
        } else {
            Category::Other
        });
    }
}

/// Every module that the table lists is in the category that lists it.
pub proof fn lemma_listed_module_has_category(c: Category, i: int)
    requires
        0 <= i < members(c).len(),
    ensures
        categories(members(c)[i]).contains(c),
        categories(members(c)[i]).len() > 0,
{
    lemma_categories_match_table(members(c)[i]);
    assert(members(c).contains(members(c)[i]));
}

} // verus!

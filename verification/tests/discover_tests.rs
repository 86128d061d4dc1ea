use localai_cli::discover::{
    endpoints, list_endpoints, listing_entries, listing_width, tags, Doc, Operation, Parameter,
    PathItem,
};

fn op(summary: Option<&str>, tags: &[&str]) -> Operation {
    Operation {
        summary: summary.map(|s| s.to_string()),
        tags: tags.iter().map(|t| t.to_string()).collect(),
        parameters: Vec::new(),
        consumes: Vec::new(),
        produces: Vec::new(),
    }
}

fn item() -> PathItem {
    PathItem { get: None, post: None, put: None, delete: None, patch: None, head: None }
}

fn sample_doc() -> Doc {
    let mut models = item();
    models.get = Some(op(Some("List models"), &["models"]));
    let mut apply = item();
    apply.post = Some(op(Some("Apply a model"), &["models"]));
    let mut jobs = item();
    jobs.get = Some(op(None, &["jobs", "Models"]));
    jobs.delete = Some(op(Some("Cancel"), &["jobs"]));
    let mut backends = item();
    backends.get = Some(op(Some("Backends"), &[]));
    Doc {
        paths: vec![
            ("/v1/models".to_string(), models),
            ("/models/jobs/{uuid}".to_string(), jobs),
            ("/models/apply".to_string(), apply),
            ("/backends".to_string(), backends),
        ],
        definitions: Vec::new(),
    }
}

#[test]
fn operations_come_in_method_order() {
    let mut it = item();
    it.head = Some(op(Some("h"), &[]));
    it.get = Some(op(Some("g"), &[]));
    it.delete = Some(op(Some("d"), &[]));
    let ops = it.operations();
    let methods: Vec<&str> = ops.iter().map(|(m, _)| *m).collect();
    assert_eq!(methods, vec!["GET", "DELETE", "HEAD"]);
    assert_eq!(ops[1].1.summary.as_deref(), Some("d"));
}

#[test]
fn operations_of_empty_path_item() {
    assert!(item().operations().is_empty());
}

#[test]
fn endpoints_are_sorted_by_path_then_method() {
    let eps = endpoints(&sample_doc());
    let keys: Vec<(String, String)> =
        eps.iter().map(|e| (e.path.clone(), e.method.clone())).collect();
    assert_eq!(
        keys,
        vec![
            ("/backends".to_string(), "GET".to_string()),
            ("/models/apply".to_string(), "POST".to_string()),
            ("/models/jobs/{uuid}".to_string(), "DELETE".to_string()),
            ("/models/jobs/{uuid}".to_string(), "GET".to_string()),
            ("/v1/models".to_string(), "GET".to_string()),
        ]
    );
    // A missing summary becomes empty; tags are carried over.
    assert_eq!(eps[3].summary, "");
    assert_eq!(eps[3].tags, vec!["jobs".to_string(), "Models".to_string()]);
    assert_eq!(eps[4].summary, "List models");
}

#[test]
fn endpoints_do_not_depend_on_path_order() {
    let mut doc = sample_doc();
    doc.paths.reverse();
    let a: Vec<String> = endpoints(&doc).iter().map(|e| format!("{} {}", e.method, e.path)).collect();
    let b: Vec<String> =
        endpoints(&sample_doc()).iter().map(|e| format!("{} {}", e.method, e.path)).collect();
    assert_eq!(a, b);
}

#[test]
fn endpoints_keep_parameters() {
    let mut it = item();
    let mut o = op(Some("Job"), &[]);
    o.parameters.push(Parameter {
        name: "uuid".to_string(),
        location: "path".to_string(),
        required: true,
        param_type: Some("string".to_string()),
        description: None,
    });
    it.get = Some(o);
    let doc = Doc { paths: vec![("/jobs/{uuid}".to_string(), it)], definitions: Vec::new() };
    let eps = endpoints(&doc);
    assert_eq!(eps.len(), 1);
    assert_eq!(eps[0].parameters.len(), 1);
    assert_eq!(eps[0].parameters[0].name, "uuid");
    assert!(eps[0].parameters[0].required);
    assert_eq!(eps[0].parameters[0].param_type.as_deref(), Some("string"));
}

#[test]
fn tags_are_sorted_and_deduplicated() {
    let t = tags(&sample_doc());
    assert_eq!(t, vec!["Models".to_string(), "jobs".to_string(), "models".to_string()]);
}

#[test]
fn tags_of_empty_doc() {
    let doc = Doc { paths: Vec::new(), definitions: Vec::new() };
    assert!(tags(&doc).is_empty());
    assert!(endpoints(&doc).is_empty());
    assert!(list_endpoints(&doc, None).is_empty());
}

#[test]
fn listing_pads_labels_to_the_widest() {
    let lines = list_endpoints(&sample_doc(), None);
    assert_eq!(
        lines,
        vec![
            "DELETE /models/jobs/{uuid}  Cancel".to_string(),
            "                            [jobs]".to_string(),
            "GET /backends               Backends".to_string(),
            "GET /models/jobs/{uuid}     ".to_string(),
            "                            [jobs, Models]".to_string(),
            "GET /v1/models              List models".to_string(),
            "                            [models]".to_string(),
            "POST /models/apply          Apply a model".to_string(),
            "                            [models]".to_string(),
        ]
    );
}

#[test]
fn listing_filter_ignores_ascii_case() {
    let lines = list_endpoints(&sample_doc(), Some("MODELS"));
    assert_eq!(
        lines,
        vec![
            "GET /models/jobs/{uuid}  ".to_string(),
            "                         [jobs, Models]".to_string(),
            "GET /v1/models           List models".to_string(),
            "                         [models]".to_string(),
            "POST /models/apply       Apply a model".to_string(),
            "                         [models]".to_string(),
        ]
    );
    assert!(list_endpoints(&sample_doc(), Some("nothing")).is_empty());
}

#[test]
fn listing_width_counts_bytes() {
    let mut it = item();
    it.get = Some(op(Some("s"), &[]));
    let mut other = item();
    other.get = Some(op(Some("t"), &[]));
    let doc = Doc {
        paths: vec![("/é".to_string(), it), ("/abcd".to_string(), other)],
        definitions: Vec::new(),
    };
    let entries = listing_entries(&doc, None);
    assert_eq!(entries[0].label, "GET /abcd");
    assert_eq!(entries[1].label, "GET /é");
    // "GET /abcd" has 9 bytes, "GET /é" has 7 bytes but 6 characters.
    assert_eq!(listing_width(&entries), 9);
    let lines = list_endpoints(&doc, None);
    assert_eq!(lines, vec!["GET /abcd  t".to_string(), "GET /é     s".to_string()]);
}

use gdeditor::import::{
    AnimationLoopMode, FbxSceneImporter, GltfSceneImporter, ImportError, ImportPipeline, ImportState, ImportedResource, ImportedSceneNode, ObjSceneImporter, ResourceImporter,
    SceneImportOptions, TresImporter, TscnImporter,
};

/// A stand-in for the built-in importers, with the files that exist.
enum TestImporter {
    Tres(Vec<String>),
    Tscn(Vec<String>),
}

impl ResourceImporter for TestImporter {
    fn can_import(&self, extension: &str) -> bool {
        match self {
            TestImporter::Tres(_) => TresImporter.can_import(extension),
            TestImporter::Tscn(_) => TscnImporter.can_import(extension),
        }
    }

    fn import(&self, path: &str) -> Result<ImportedResource, String> {
        let (files, resource_type) = match self {
            TestImporter::Tres(f) => (f, "Resource"),
            TestImporter::Tscn(f) => (f, "PackedScene"),
        };
        if !files.iter().any(|f| f == path) {
            return Err(format!("file not found: {path}"));
        }
        Ok(ImportedResource { source_path: path.to_string(), resource_type: resource_type.to_string() })
    }

    fn name(&self) -> &str {
        match self {
            TestImporter::Tres(_) => TresImporter.name(),
            TestImporter::Tscn(_) => TscnImporter.name(),
        }
    }
}

fn make_pipeline() -> ImportPipeline<TestImporter> {
    let files = vec!["/p/level.tscn".to_string(), "/p/b.tres".to_string(), "/p/image.png".to_string()];
    let mut pipeline = ImportPipeline::new();
    pipeline.register(TestImporter::Tres(files.clone()));
    pipeline.register(TestImporter::Tscn(files));
    pipeline
}

#[test]
fn tres_importer_can_import() {
    let imp = TresImporter;
    assert!(imp.can_import("tres"));
    assert!(imp.can_import("TRES"));
    assert!(!imp.can_import("tscn"));
    assert!(!imp.can_import("png"));
}

#[test]
fn tscn_importer_can_import() {
    let imp = TscnImporter;
    assert!(imp.can_import("tscn"));
    assert!(imp.can_import("TSCN"));
    assert!(!imp.can_import("tres"));
}

#[test]
fn animation_loop_mode_default() {
    assert_eq!(AnimationLoopMode::default(), AnimationLoopMode::NoLoop);
}

#[test]
fn pipeline_register_and_count() {
    let pipeline = make_pipeline();
    assert_eq!(pipeline.importer_count(), 2);
}

#[test]
fn pipeline_import_file_tracks_state() {
    let mut pipeline = make_pipeline();
    let result = pipeline.import_file("/p/level.tscn", b"[gd_scene]\n").unwrap();
    assert!(result.is_some());
    assert!(matches!(pipeline.get_state("/p/level.tscn"), Some(ImportState::Imported { .. })));
}

#[test]
fn pipeline_skips_unchanged_file() {
    let mut pipeline = make_pipeline();
    let first = pipeline.import_file("/p/level.tscn", b"[gd_scene]\n").unwrap();
    assert!(first.is_some());
    let second = pipeline.import_file("/p/level.tscn", b"[gd_scene]\n").unwrap();
    assert!(second.is_none());
}

#[test]
fn pipeline_reimports_changed_file() {
    let mut pipeline = make_pipeline();
    pipeline.import_file("/p/level.tscn", b"[gd_scene]\n").unwrap();
    let result = pipeline.import_file("/p/level.tscn", b"[gd_scene format=3]\n").unwrap();
    assert!(result.is_some());
}

#[test]
fn pipeline_mark_pending() {
    let mut pipeline = make_pipeline();
    pipeline.import_file("/p/level.tscn", b"[gd_scene]\n").unwrap();
    pipeline.mark_pending("/p/level.tscn");
    assert_eq!(pipeline.get_state("/p/level.tscn"), Some(&ImportState::Pending));
}

#[test]
fn pipeline_no_importer_for_extension() {
    let mut pipeline = make_pipeline();
    let result = pipeline.import_file("/p/image.png", b"PNG data");
    assert!(result.is_err());
    assert_eq!(result.unwrap_err(), ImportError::NotFound("no importer for extension 'png'".to_string()));
    assert!(pipeline.get_state("/p/image.png").is_none());
}

#[test]
fn pipeline_records_the_content_hash() {
    let mut pipeline = make_pipeline();
    pipeline.import_file("/p/b.tres", b"a").unwrap();
    assert_eq!(pipeline.get_state("/p/b.tres"), Some(&ImportState::Imported { hash: 0xaf63dc4c8601ec8c }));
    pipeline.import_file("/p/level.tscn", b"").unwrap();
    assert_eq!(pipeline.get_state("/p/level.tscn"), Some(&ImportState::Imported { hash: 0xcbf29ce484222325 }));
    assert_eq!(pipeline.all_states().len(), 2);
}

#[test]
fn pipeline_records_an_importer_refusal() {
    let mut pipeline = make_pipeline();
    let result = pipeline.import_file("/p/missing.tres", b"x");
    assert_eq!(result.unwrap_err(), ImportError::Importer("file not found: /p/missing.tres".to_string()));
    assert_eq!(
        pipeline.get_state("/p/missing.tres"),
        Some(&ImportState::Failed { reason: "file not found: /p/missing.tres".to_string() })
    );
    assert!(pipeline.handles_extension("TSCN"));
    assert!(!pipeline.handles_extension("png"));
}

#[test]
fn pipeline_without_importers_finds_none() {
    let mut pipeline: ImportPipeline<TestImporter> = ImportPipeline::new();
    assert!(matches!(pipeline.import_file("/p/level.tscn", b"x"), Err(ImportError::NotFound(_))));
    assert!(!pipeline.handles_extension("tscn"));
}

#[test]
fn scene_import_options_get_set() {
    let mut opts: SceneImportOptions<i64> = SceneImportOptions::new();
    assert!(opts.get("foo").is_none());
    opts.set("foo", 42);
    assert_eq!(opts.get("foo"), Some(&42));
    opts.set("foo", 7);
    assert_eq!(opts.get("foo"), Some(&7));
}

#[test]
fn imported_scene_node_builder() {
    let node = ImportedSceneNode::new("Root", "Node3D")
        .with_property("visible", true)
        .with_child(ImportedSceneNode::new("Child", "MeshInstance3D"));
    assert_eq!(node.name, "Root");
    assert_eq!(node.children.len(), 1);
    assert_eq!(node.properties.len(), 1);
    assert_eq!(node.node_count(), 2);
}

#[test]
fn imported_scene_node_deep_count() {
    let node: ImportedSceneNode<bool> = ImportedSceneNode::new("A", "Node3D")
        .with_child(ImportedSceneNode::new("B", "Node3D").with_child(ImportedSceneNode::new("C", "Node3D")))
        .with_child(ImportedSceneNode::new("D", "Node3D"));
    assert_eq!(node.node_count(), 4);
}

#[test]
fn imported_scene_node_property_replaced() {
    let node = ImportedSceneNode::new("Root", "Node3D").with_property("hp", 1).with_property("hp", 2);
    assert_eq!(node.properties.len(), 1);
    assert_eq!(node.properties[0].1, 2);
    assert_eq!(node.node_type, "Node3D");
}

#[test]
fn gltf_build_scene() {
    let scene = GltfSceneImporter.build_scene(Some("robot"), None, 200, "(0, 0, 0)".to_string());
    assert_eq!(scene.root.name, "robot");
    assert_eq!(scene.root.node_type, "Node3D");
    assert_eq!(scene.root.properties, vec![("transform/origin".to_string(), "(0, 0, 0)".to_string())]);
    assert_eq!(scene.root.children.len(), 1);
    assert_eq!(scene.root.children[0].name, "robot_Mesh");
    assert_eq!(scene.root.children[0].node_type, "MeshInstance3D");
    assert_eq!(scene.animations.len(), 1);
    assert_eq!(scene.animations[0].name, "default");
    assert_eq!(scene.animations[0].duration_ms, 1000);
    assert_eq!(scene.animations[0].loop_mode, AnimationLoopMode::NoLoop);
    assert_eq!(scene.mesh_count, 1);
    assert!(scene.warnings.is_empty());
    assert_eq!(scene.root.node_count(), 2);
}

#[test]
fn gltf_build_scene_without_animations() {
    let short = GltfSceneImporter.build_scene(None, Some(true), 100, 0);
    assert_eq!(short.root.name, "Scene");
    assert!(short.animations.is_empty());
    let off = GltfSceneImporter.build_scene(Some("a"), Some(false), 5000, 0);
    assert!(off.animations.is_empty());
}

#[test]
fn obj_build_scene() {
    let scene: gdeditor::import::ImportedScene<i64> = ObjSceneImporter.build_scene(None);
    assert_eq!(scene.root.name, "ObjScene");
    assert_eq!(scene.root.children[0].name, "ObjScene_Mesh");
    assert!(scene.animations.is_empty());
}

#[test]
fn fbx_build_scene_with_skeleton() {
    let scene: gdeditor::import::ImportedScene<i64> = FbxSceneImporter.build_scene(Some("hero"), None);
    assert_eq!(scene.root.children.len(), 2);
    assert_eq!(scene.root.children[1].name, "hero_Skeleton");
    assert_eq!(scene.root.children[1].node_type, "Skeleton3D");
    assert_eq!(scene.animations[0].name, "idle");
    assert_eq!(scene.animations[0].duration_ms, 2000);
    assert_eq!(scene.animations[0].loop_mode, AnimationLoopMode::Linear);
    let off: gdeditor::import::ImportedScene<i64> = FbxSceneImporter.build_scene(Some("hero"), Some(false));
    assert!(off.animations.is_empty());
}

#[test]
fn merged_extensions_sorted_and_each_once() {
    let lists = vec![vec!["gltf", "glb"], vec!["obj"], vec!["fbx", "glb"]];
    assert_eq!(gdeditor::import::merged_extensions(&lists), vec!["fbx", "glb", "gltf", "obj"]);
}

#[test]
fn merged_extensions_prefix_sorts_first() {
    let lists = vec![vec!["glbx", "gl", "glb"]];
    assert_eq!(gdeditor::import::merged_extensions(&lists), vec!["gl", "glb", "glbx"]);
    let none: Vec<Vec<&'static str>> = Vec::new();
    assert!(gdeditor::import::merged_extensions(&none).is_empty());
}

#[test]
fn first_importer_for_takes_the_first_and_ignores_case() {
    let lists = vec![vec!["gltf", "glb"], vec!["obj"], vec!["fbx", "glb"]];
    assert_eq!(gdeditor::import::first_importer_for(&lists, "GLB"), Some(0));
    assert_eq!(gdeditor::import::first_importer_for(&lists, "Fbx"), Some(2));
    assert_eq!(gdeditor::import::first_importer_for(&lists, "dae"), None);
}

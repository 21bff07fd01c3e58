//! The model files, and the hardware that runs them.
use vstd::prelude::*;

verus! {

/// What runs a model.
#[derive(Debug, Clone, Copy, PartialEq, Eq, Structural)]
pub enum Provider {
    Rocm,
    Cuda,
    OpenVino,
    Vitis,
    Cpu,
}

/// The accelerator that a name in the settings stands for.
pub open spec fn accelerator(name: Seq<char>) -> Option<Provider> {
    if name == "rocm"@ {
        Some(Provider::Rocm)
    } else if name == "cuda"@ {
        Some(Provider::Cuda)
    } else if name == "openvino"@ {
        Some(Provider::OpenVino)
    } else if name == "vitis"@ || name == "xdna"@ {
        Some(Provider::Vitis)
    } else {
        None
    }
}

/// What to try for running the models, in order: the named accelerator, where it is one, and
/// always the processor last.
pub fn execution_providers(ep_name: &str) -> (r: Vec<Provider>)
    ensures
        r@ == match accelerator(ep_name@) {
            Some(p) => seq![p, Provider::Cpu],
            None => seq![Provider::Cpu],
        },
{
    let mut r: Vec<Provider> = Vec::new();
    if crate::text::same(ep_name, "rocm") {
        r.push(Provider::Rocm);
    } else if crate::text::same(ep_name, "cuda") {
        r.push(Provider::Cuda);
    } else if crate::text::same(ep_name, "openvino") {
        r.push(Provider::OpenVino);
    } else if crate::text::same(ep_name, "vitis") || crate::text::same(ep_name, "xdna") {
        r.push(Provider::Vitis);
    }
    r.push(Provider::Cpu);
    r
}

/// A model.
#[derive(Debug, Clone, Copy, PartialEq, Eq, Structural)]
pub enum Model {
    Detection,
    Recognition,
    AntiSpoof,
}

/// The file of a model.
pub open spec fn file_name(m: Model) -> Seq<char> {
    match m {
        Model::Detection => "det_500m.onnx"@,
        Model::Recognition => "w600k_mbf.onnx"@,
        Model::AntiSpoof => "antispoof_q.onnx"@,
    }
}

/// The directories that may hold the models, in the order in which they count.
pub open spec fn directory(i: int) -> Seq<char> {
    if i == 0 {
        "models"@
    } else if i == 1 {
        "/usr/share/face-auth/models"@
    } else {
        "/var/lib/face-auth/models"@
    }
}

/// The three places where the file of a model may be.
pub open spec fn place(m: Model, i: int) -> Seq<char> {
    directory(i) + "/"@ + file_name(m)
}

/// What is said where a model is in none of its places.
pub open spec fn not_found(m: Model) -> Seq<char> {
    file_name(m)
        + " not found in ./models/, /usr/share/face-auth/models/, or /var/lib/face-auth/models/"@
}

impl Model {
    /// The file of the model.
    pub fn file(self) -> (r: &'static str)
        ensures
            r@ == file_name(self),
    {
        match self {
            Model::Detection => "det_500m.onnx",
            Model::Recognition => "w600k_mbf.onnx",
            Model::AntiSpoof => "antispoof_q.onnx",
        }
    }

    /// The places where the file may be, in the order in which they count.
    pub fn places(self) -> (r: Vec<String>)
        ensures
            r@.len() == 3,
            forall|i: int| 0 <= i < 3 ==> (#[trigger] r@[i])@ == place(self, i),
    {
        let mut r: Vec<String> = Vec::new();
        let mut i: usize = 0;
        while i < 3
            invariant
                i <= 3,
                r@.len() == i,
                forall|k: int| 0 <= k < i ==> (#[trigger] r@[k])@ == place(self, k),
            decreases 3 - i,
        {
            let mut p: String = if i == 0 {
                "models".to_owned()
            } else if i == 1 {
                "/usr/share/face-auth/models".to_owned()
            } else {
                "/var/lib/face-auth/models".to_owned()
            };
            p.append("/");
            p.append(self.file());
            r.push(p);
            i += 1;
        }
        r
    }

    /// Which place to load the model from, given in which of them the file is: the first. Where
    /// it is in none, an error text.
    pub fn locate(self, present: &Vec<bool>) -> (r: Result<usize, String>)
        requires
            present@.len() == 3,
        ensures
            match r {
                Ok(i) => {
                    &&& i < 3
                    &&& present@[i as int]
                    &&& forall|k: int| 0 <= k < i ==> !#[trigger] present@[k]
                },
                Err(e) => {
                    &&& forall|k: int| 0 <= k < 3 ==> !#[trigger] present@[k]
                    &&& e@ == not_found(self)
                },
            },
    {
        let mut i: usize = 0;
        while i < 3
            invariant
                i <= 3,
                present@.len() == 3,
                forall|k: int| 0 <= k < i ==> !#[trigger] present@[k],
            decreases 3 - i,
        {
            if present[i] {
                return Ok(i);
            }
            i += 1;
        }
        let mut e: String = self.file().to_owned();
        e.append(
            " not found in ./models/, /usr/share/face-auth/models/, or /var/lib/face-auth/models/",
        );
        Err(e)
    }
}

/// Whatever the settings name, the processor is there to fall back on.
pub proof fn processor_is_always_tried(name: Seq<char>)
    ensures
        ({
            let tried = match accelerator(name) {
                Some(p) => seq![p, Provider::Cpu],
                None => seq![Provider::Cpu],
            };
            tried.last() == Provider::Cpu
        }),
{
}

/// The names of the accelerators: four of them have one, and the fourth has two. Any other name stands
/// for the processor alone.
pub proof fn names_of_the_accelerators(name: Seq<char>)
    ensures
        accelerator(name) == Some(Provider::Rocm) <==> name == "rocm"@,
        accelerator(name) == Some(Provider::Cuda) <==> name == "cuda"@,
        accelerator(name) == Some(Provider::OpenVino) <==> name == "openvino"@,
        accelerator(name) == Some(Provider::Vitis) <==> name == "vitis"@ || name == "xdna"@,
        accelerator(name) != Some(Provider::Cpu),
{
    reveal_strlit("rocm");
    reveal_strlit("cuda");
    reveal_strlit("openvino");
    reveal_strlit("vitis");
    reveal_strlit("xdna");
    assert("rocm"@.len() == 4 && "cuda"@.len() == 4 && "xdna"@.len() == 4);
    assert("openvino"@.len() == 8 && "vitis"@.len() == 5);
    assert("rocm"@[0] == 'r' && "cuda"@[0] == 'c' && "xdna"@[0] == 'x');
}

/// Each model has a file of its own, and is looked for in three directories.
pub proof fn models_have_files_of_their_own(a: Model, b: Model)
    ensures
        file_name(a) == file_name(b) <==> a == b,
        directory(0) != directory(1),
        directory(0) != directory(2),
        directory(1) != directory(2),
{
    reveal_strlit("det_500m.onnx");
    reveal_strlit("w600k_mbf.onnx");
    reveal_strlit("antispoof_q.onnx");
    reveal_strlit("models");
    reveal_strlit("/usr/share/face-auth/models");
    reveal_strlit("/var/lib/face-auth/models");
    assert("det_500m.onnx"@.len() == 13 && "w600k_mbf.onnx"@.len() == 14 && "antispoof_q.onnx"@.len()
        == 16);
    assert("models"@.len() == 6 && "/usr/share/face-auth/models"@.len() == 27
        && "/var/lib/face-auth/models"@.len() == 25);
}

} // verus!
